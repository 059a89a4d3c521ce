//! Deriving status from a listing: resolving a user's selector to a task,
//! the due-soon test, and summary statistics.
//!
//! A selector is resolved against one specific, freshly computed listing:
//! a positive integer within range picks by 1-based position in that
//! listing, anything else is matched against titles ignoring ASCII case.
//! Positions are ephemeral; they are only valid for the listing they were
//! derived from.

use crate::models::{views_of, Task, TaskView};
use crate::text;
use vstd::prelude::*;
use vstd::string::StrSliceExecFns;

verus! {

/// Position of the first task whose title equals `target` up to ASCII
/// case, if any.
pub open spec fn spec_first_title_match(ts: Seq<TaskView>, target: Seq<char>) -> Option<int>
    decreases ts.len(),
{
    if ts.len() == 0 {
        None
    } else if text::chars_eq_ic(ts[0].title, target) {
        Some(0)
    } else {
        match spec_first_title_match(ts.drop_first(), target) {
            Some(i) => Some(i + 1),
            None => None,
        }
    }
}

/// The first title match is a match, is first, and exists whenever any
/// position matches.
proof fn lemma_first_title_match(ts: Seq<TaskView>, target: Seq<char>)
    ensures
        match spec_first_title_match(ts, target) {
            Some(i) => 0 <= i < ts.len() && text::chars_eq_ic(ts[i].title, target) && forall|j: int|
                0 <= j < i ==> !text::chars_eq_ic(#[trigger] ts[j].title, target),
            None => forall|j: int|
                0 <= j < ts.len() ==> !text::chars_eq_ic(#[trigger] ts[j].title, target),
        },
    decreases ts.len(),
{
    if ts.len() > 0 && !text::chars_eq_ic(ts[0].title, target) {
        let sub = ts.drop_first();
        lemma_first_title_match(sub, target);
        assert(forall|j: int| 0 <= j < sub.len() ==> #[trigger] sub[j] == ts[j + 1]);
        match spec_first_title_match(sub, target) {
            Some(i) => {
                assert(ts[i + 1] == sub[i]);
                assert forall|j: int| 0 <= j < i + 1 implies !text::chars_eq_ic(
                    #[trigger] ts[j].title,
                    target,
                ) by {
                    if j > 0 {
                        assert(ts[j] == sub[j - 1]);
                    }
                }
            },
            None => {
                assert forall|j: int| 0 <= j < ts.len() implies !text::chars_eq_ic(
                    #[trigger] ts[j].title,
                    target,
                ) by {
                    if j > 0 {
                        assert(ts[j] == sub[j - 1]);
                    }
                }
            },
        }
    }
}

/// What resolving a selector against a listing yields: the position (from
/// zero) and the id of the selected task. A selector that reads as an
/// integer within `1 ..= len` picks by position; any other selector picks
/// the first task whose title matches it ignoring ASCII case.
pub open spec fn spec_resolve_target(ts: Seq<TaskView>, target: Seq<char>) -> Option<(int, i64)> {
    let by_index = text::spec_parse_usize(target);
    if by_index is Some && 1 <= by_index->0 <= ts.len() {
        Some((by_index->0 - 1, ts[by_index->0 - 1].id))
    } else {
        match spec_first_title_match(ts, target) {
            Some(i) => Some((i, ts[i].id)),
            None => None,
        }
    }
}

/// Resolves a selector against the given listing, by 1-based position
/// when the selector is an integer within range, else by
/// case-insensitive title; yields the position and the task's id.
pub fn find_task_by_index_or_title(tasks: &Vec<Task>, target: &str) -> (r: Option<(usize, i64)>)
    ensures
        match r {
            Some(p) => spec_resolve_target(views_of(tasks@), target@) == Some((p.0 as int, p.1)),
            None => spec_resolve_target(views_of(tasks@), target@) is None,
        },
{
    let ghost views = views_of(tasks@);
    let n = tasks.len();
    let tlen = target.unicode_len();
    proof {
        assert(target@.subrange(0, tlen as int) =~= target@);
    }
    let parsed = text::parse_usize_range(target, 0, tlen);
    match parsed {
        Some(k) => {
            if 1 <= k && k <= n {
                proof {
                    assert(views[k - 1] == tasks@[k - 1]@);
                }
                return Some((k - 1, tasks[k - 1].id));
            }
        },
        None => {},
    }
    proof {
        lemma_first_title_match(views, target@);
    }
    let mut i: usize = 0;
    while i < n
        invariant
            i <= n,
            n == tasks@.len(),
            views == views_of(tasks@),
            ({
                let bi = text::spec_parse_usize(target@);
                !(bi is Some && 1 <= bi->0 <= views.len())
            }),
            forall|j: int| 0 <= j < i ==> !text::chars_eq_ic(#[trigger] views[j].title, target@),
            match spec_first_title_match(views, target@) {
                Some(m) => 0 <= m < views.len() && text::chars_eq_ic(views[m].title, target@)
                    && forall|j: int|
                    0 <= j < m ==> !text::chars_eq_ic(#[trigger] views[j].title, target@),
                None => forall|j: int|
                    0 <= j < views.len() ==> !text::chars_eq_ic(#[trigger] views[j].title, target@),
            },
        decreases n - i,
    {
        if text::str_eq_ignore_case(tasks[i].title.as_str(), target) {
            proof {
                assert(views[i as int] == tasks@[i as int]@);
                assert(text::chars_eq_ic(views[i as int].title, target@));
                match spec_first_title_match(views, target@) {
                    Some(m) => {
                        if m < i {
                            assert(!text::chars_eq_ic(views[m].title, target@));
                        } else if m > i {
                            assert(!text::chars_eq_ic(views[i as int].title, target@));
                        }
                        assert(m == i);
                    },
                    None => {
                        assert(!text::chars_eq_ic(views[i as int].title, target@));
                    },
                }
                assert(spec_first_title_match(views, target@) == Some(i as int));
            }
            return Some((i, tasks[i].id));
        }
        proof {
            assert(views[i as int] == tasks@[i as int]@);
        }
        i = i + 1;
    }
    None
}

/// 1-based position of the task with the given id within a listing, or
/// nothing when the listing does not hold it. A fresh position for
/// display: it is only valid for this listing.
pub fn position_of_id(tasks: &Vec<Task>, id: i64) -> (r: Option<usize>)
    ensures
        match r {
            Some(p) => 1 <= p <= tasks@.len() && crate::store::spec_find_id(
                views_of(tasks@),
                id,
            ) == Some(p - 1),
            None => crate::store::spec_find_id(views_of(tasks@), id) is None,
        },
{
    let ghost views = views_of(tasks@);
    proof {
        crate::store::lemma_find_id(views, id);
    }
    let n = tasks.len();
    let mut i: usize = 0;
    while i < n
        invariant
            i <= n,
            n == tasks@.len(),
            views == views_of(tasks@),
            forall|j: int| 0 <= j < i ==> (#[trigger] views[j].id) != id,
            match crate::store::spec_find_id(views, id) {
                Some(m) => 0 <= m < views.len() && views[m].id == id && forall|j: int|
                    0 <= j < m ==> (#[trigger] views[j].id) != id,
                None => forall|j: int| 0 <= j < views.len() ==> (#[trigger] views[j].id) != id,
            },
        decreases n - i,
    {
        proof {
            assert(views[i as int] == tasks@[i as int]@);
        }
        if tasks[i].id == id {
            proof {
                match crate::store::spec_find_id(views, id) {
                    Some(m) => {
                        if m < i {
                            assert(views[m].id != id);
                        } else if m > i {
                            assert(views[i as int].id != id);
                        }
                    },
                    None => {
                        assert(views[i as int].id != id);
                    },
                }
            }
            return Some(i + 1);
        }
        i = i + 1;
    }
    None
}

/// True when the task's due instant lies strictly in the future and at
/// most 24 hours away.
pub fn due_soon(task: &Task, now: i64) -> (r: bool)
    ensures
        r == task@.spec_due_soon(now),
{
    match task.due_at {
        Some(d) => d > now && d as i128 - now as i128 <= 86400,
        None => false,
    }
}

/// Summary of a listing: how many tasks it holds, how many of them are
/// completed, pending, and overdue.
#[derive(Clone, Copy, Debug, PartialEq, Eq, Structural)]
pub struct Stats {
    pub total: usize,
    pub completed: usize,
    pub pending: usize,
    pub overdue: usize,
}

pub open spec fn count_completed(ts: Seq<TaskView>) -> int
    decreases ts.len(),
{
    if ts.len() == 0 {
        0
    } else {
        count_completed(ts.drop_last()) + if !ts.last().is_pending() {
            1int
        } else {
            0int
        }
    }
}

pub open spec fn count_overdue(ts: Seq<TaskView>, now: i64) -> int
    decreases ts.len(),
{
    if ts.len() == 0 {
        0
    } else {
        count_overdue(ts.drop_last(), now) + if ts.last().spec_is_overdue(now) {
            1int
        } else {
            0int
        }
    }
}

proof fn lemma_count_bounds(ts: Seq<TaskView>, now: i64)
    ensures
        0 <= count_completed(ts) <= ts.len(),
        0 <= count_overdue(ts, now) <= ts.len(),
    decreases ts.len(),
{
    if ts.len() > 0 {
        lemma_count_bounds(ts.drop_last(), now);
    }
}

/// Computes the statistics of a listing at instant `now`.
pub fn compute_stats(tasks: &Vec<Task>, now: i64) -> (r: Stats)
    ensures
        r.total == tasks@.len(),
        r.completed == count_completed(views_of(tasks@)),
        r.pending == tasks@.len() - count_completed(views_of(tasks@)),
        r.overdue == count_overdue(views_of(tasks@), now),
{
    let ghost views = views_of(tasks@);
    let n = tasks.len();
    let mut completed: usize = 0;
    let mut overdue: usize = 0;
    let mut i: usize = 0;
    while i < n
        invariant
            i <= n,
            n == tasks@.len(),
            views == views_of(tasks@),
            completed == count_completed(views.take(i as int)),
            overdue == count_overdue(views.take(i as int), now),
            completed <= i,
            overdue <= i,
        decreases n - i,
    {
        proof {
            assert(views.take(i + 1).drop_last() =~= views.take(i as int));
            assert(views.take(i + 1).last() == views[i as int]);
            assert(views[i as int] == tasks@[i as int]@);
        }
        if tasks[i].is_completed() {
            completed = completed + 1;
        }
        if tasks[i].is_overdue(now) {
            overdue = overdue + 1;
        }
        i = i + 1;
    }
    proof {
        assert(views.take(n as int) =~= views);
        lemma_count_bounds(views, now);
    }
    Stats { total: n, completed, pending: n - completed, overdue }
}

} // verus!
