//! The task store: a collection of tasks with store-assigned ids, the two
//! fixed query orderings, and the configuration record.
//!
//! The store itself is a plain value; durable persistence is an external
//! collaborator that loads the rows into [`Database::from_rows`] and
//! writes them back after an operation. The two orderings differ on
//! purpose: a general listing ranks by priority and age, while the
//! next-task selection lets the due instant break priority ties, because
//! "next" answers what to work on now.

use crate::models::{default_config, views_of, ReminderConfig, Task, TaskView, TodoError};
use crate::text;
use vstd::prelude::*;
use vstd::relations::sorted_by;
use vstd::pervasive::VecAdditionalExecFns;

verus! {

/// Order of a general listing: weightier priorities first, earlier
/// creation first within a priority, the id as the final tie-break.
pub open spec fn list_le(a: TaskView, b: TaskView) -> bool {
    if a.priority.spec_weight() != b.priority.spec_weight() {
        a.priority.spec_weight() > b.priority.spec_weight()
    } else if a.created_at != b.created_at {
        a.created_at < b.created_at
    } else {
        a.id <= b.id
    }
}

/// The earlier of two optional due instants, a missing one sorting last.
pub open spec fn due_before(a: Option<i64>, b: Option<i64>) -> bool {
    match (a, b) {
        (Some(x), Some(y)) => x < y,
        (Some(_), None) => true,
        (None, _) => false,
    }
}

/// Order of the next-task selection: weightier priorities first, then
/// earlier due instants with no due instant last, then earlier creation,
/// the id as the final tie-break. The due instant breaks ties only
/// within one priority; it never overrides priority.
pub open spec fn next_le(a: TaskView, b: TaskView) -> bool {
    if a.priority.spec_weight() != b.priority.spec_weight() {
        a.priority.spec_weight() > b.priority.spec_weight()
    } else if due_before(a.due_at, b.due_at) {
        true
    } else if due_before(b.due_at, a.due_at) {
        false
    } else if a.created_at != b.created_at {
        a.created_at < b.created_at
    } else {
        a.id <= b.id
    }
}

/// Both orders are total: any two tasks compare one way or the other,
/// and each order is transitive.
pub proof fn lemma_orders_total()
    ensures
        forall|a: TaskView, b: TaskView| #[trigger] list_le(a, b) || #[trigger] list_le(b, a),
        forall|a: TaskView, b: TaskView, c: TaskView|
            #[trigger] list_le(a, b) && #[trigger] list_le(b, c) ==> list_le(a, c),
        forall|a: TaskView, b: TaskView| #[trigger] next_le(a, b) || #[trigger] next_le(b, a),
        forall|a: TaskView, b: TaskView, c: TaskView|
            #[trigger] next_le(a, b) && #[trigger] next_le(b, c) ==> next_le(a, c),
{
}

/// In the next-task order a weightier priority always comes first,
/// whatever either task's due instant: the due instant breaks ties, it
/// never overrides priority. The same holds of the listing order.
pub proof fn lemma_priority_dominates(a: TaskView, b: TaskView)
    requires
        a.priority.spec_weight() > b.priority.spec_weight(),
    ensures
        next_le(a, b),
        !next_le(b, a),
        list_le(a, b),
        !list_le(b, a),
{
}

fn list_le_exec(a: &Task, b: &Task) -> (r: bool)
    ensures
        r == list_le(a@, b@),
{
    let wa = a.priority.weight();
    let wb = b.priority.weight();
    if wa != wb {
        wa > wb
    } else if a.created_at != b.created_at {
        a.created_at < b.created_at
    } else {
        a.id <= b.id
    }
}

fn next_le_exec(a: &Task, b: &Task) -> (r: bool)
    ensures
        r == next_le(a@, b@),
{
    let wa = a.priority.weight();
    let wb = b.priority.weight();
    if wa != wb {
        return wa > wb;
    }
    let a_before = match (a.due_at, b.due_at) {
        (Some(x), Some(y)) => x < y,
        (Some(_), None) => true,
        (None, _) => false,
    };
    if a_before {
        return true;
    }
    let b_before = match (b.due_at, a.due_at) {
        (Some(x), Some(y)) => x < y,
        (Some(_), None) => true,
        (None, _) => false,
    };
    if b_before {
        return false;
    }
    if a.created_at != b.created_at {
        a.created_at < b.created_at
    } else {
        a.id <= b.id
    }
}

/// The listing order as a relation, for stating sortedness.
pub open spec fn list_order() -> spec_fn(TaskView, TaskView) -> bool {
    |a: TaskView, b: TaskView| list_le(a, b)
}

/// The tasks a listing keeps: all of them, or the pending ones only.
pub open spec fn keep_pred(include_completed: bool) -> spec_fn(TaskView) -> bool {
    |t: TaskView| include_completed || t.is_pending()
}

/// The pending tasks only.
pub open spec fn pending_only() -> spec_fn(TaskView) -> bool {
    |t: TaskView| t.is_pending()
}

proof fn lemma_filter_push(s: Seq<TaskView>, pred: spec_fn(TaskView) -> bool, x: TaskView)
    ensures
        s.push(x).filter(pred) == if pred(x) {
            s.filter(pred).push(x)
        } else {
            s.filter(pred)
        },
{
    reveal(Seq::filter);
    assert(s.push(x).drop_last() =~= s);
    assert(s.push(x).last() == x);
}

/// Sorts a listing in place into the general listing order.
#[verifier::loop_isolation(false)]
fn sort_by_list_order(v: &mut Vec<Task>)
    ensures
        views_of(final(v)@).to_multiset() == views_of(old(v)@).to_multiset(),
        sorted_by(views_of(final(v)@), list_order()),
{
    broadcast use vstd::seq_lib::group_to_multiset_ensures, vstd::seq_lib::to_multiset_insert;

    proof {
        lemma_orders_total();
    }
    if v.len() <= 1 {
        return;
    }
    let mut i: usize = 1;
    while i < v.len()
        invariant
            1 <= i <= v@.len(),
            v@.len() == old(v)@.len(),
            views_of(v@).to_multiset() == views_of(old(v)@).to_multiset(),
            sorted_by(views_of(v@).take(i as int), list_order()),
        decreases v@.len() - i,
    {
        let ghost vpre = v@;
        let t = v.remove(i);
        let ghost vmid = v@;
        proof {
            assert(views_of(vmid) =~= views_of(vpre).remove(i as int));
            assert(views_of(vpre)[i as int] == t@);
            assert(views_of(vmid).to_multiset() =~= views_of(vpre).to_multiset().remove(t@));
            assert(views_of(vmid).take(i as int) =~= views_of(vpre).take(i as int));
        }
        let mut p: usize = 0;
        while p < i && list_le_exec(&v[p], &t)
            invariant
                p <= i,
                forall|j: int| 0 <= j < p ==> list_le(#[trigger] views_of(vmid)[j], t@),
            decreases i - p,
        {
            proof {
                assert(views_of(vmid)[p as int] == v@[p as int]@);
            }
            p = p + 1;
        }
        proof {
            if p < i {
                assert(views_of(vmid)[p as int] == v@[p as int]@);
                assert(!list_le(views_of(vmid)[p as int], t@));
                assert(list_le(t@, views_of(vmid)[p as int]));
            }
        }
        let ghost q = p as int;
        v.insert(p, t);
        proof {
            assert(views_of(v@) =~= views_of(vmid).insert(q, t@));
            assert(views_of(v@).to_multiset() == views_of(vmid).to_multiset().insert(t@));
            assert(views_of(vpre).contains(t@));
            assert(views_of(vpre).to_multiset().count(t@) > 0);
            assert(views_of(v@).to_multiset() =~= views_of(vpre).to_multiset());
            let pre = views_of(vmid).take(i as int);
            let now = views_of(v@).take(i + 1);
            assert(now =~= pre.insert(q, t@));
            assert forall|a: int, b: int| 0 <= a < b < i implies #[trigger] list_le(
                pre[a],
                pre[b],
            ) by {
                assert(list_order()(views_of(vpre).take(i as int)[a], views_of(vpre).take(i as int)[b]));
            }
            assert forall|a: int, b: int| 0 <= a < b < i + 1 implies list_le(
                #[trigger] now[a],
                #[trigger] now[b],
            ) by {
                if b < q {
                    assert(now[a] == pre[a] && now[b] == pre[b]);
                } else if b == q {
                    assert(now[a] == pre[a]);
                    assert(list_le(views_of(vmid)[a], t@));
                } else {
                    assert(now[b] == pre[b - 1]);
                    if a < q {
                        assert(now[a] == pre[a]);
                        if a < b - 1 {
                            assert(list_le(pre[a], pre[b - 1]));
                        }
                    } else if a == q {
                        assert(now[a] == t@);
                        assert(list_le(t@, views_of(vmid)[q]));
                        if q < b - 1 {
                            assert(list_le(pre[q], pre[b - 1]));
                        }
                    } else {
                        assert(now[a] == pre[a - 1]);
                        if a - 1 < b - 1 {
                            assert(list_le(pre[a - 1], pre[b - 1]));
                        }
                    }
                }
            }
            assert forall|a: int, b: int| 0 <= a < b < now.len() implies #[trigger] list_order()(
                now[a],
                now[b],
            ) by {
                assert(list_le(now[a], now[b]));
            }
            assert(sorted_by(views_of(v@).take(i + 1), list_order()));
        }
        i = i + 1;
    }
    proof {
        assert(views_of(v@).take(v@.len() as int) =~= views_of(v@));
    }
}

/// Position of the first task with the given id, if any.
pub open spec fn spec_find_id(views: Seq<TaskView>, id: i64) -> Option<int>
    decreases views.len(),
{
    if views.len() == 0 {
        None
    } else if views[0].id == id {
        Some(0)
    } else {
        match spec_find_id(views.drop_first(), id) {
            Some(i) => Some(i + 1),
            None => None,
        }
    }
}

/// The first position with an id is in range, carries that id, is first
/// with it, and exists whenever any position carries it.
pub proof fn lemma_find_id(views: Seq<TaskView>, id: i64)
    ensures
        match spec_find_id(views, id) {
            Some(i) => 0 <= i < views.len() && views[i].id == id && forall|j: int|
                0 <= j < i ==> (#[trigger] views[j].id) != id,
            None => forall|j: int| 0 <= j < views.len() ==> (#[trigger] views[j].id) != id,
        },
    decreases views.len(),
{
    if views.len() > 0 && views[0].id != id {
        let sub = views.drop_first();
        lemma_find_id(sub, id);
        assert(forall|j: int| 0 <= j < sub.len() ==> #[trigger] sub[j] == views[j + 1]);
        match spec_find_id(sub, id) {
            Some(i) => {
                assert(views[i + 1] == sub[i]);
                assert forall|j: int| 0 <= j < i + 1 implies (#[trigger] views[j].id) != id by {
                    if j > 0 {
                        assert(views[j] == sub[j - 1]);
                    }
                }
            },
            None => {
                assert forall|j: int| 0 <= j < views.len() implies (#[trigger] views[j].id)
                    != id by {
                    if j > 0 {
                        assert(views[j] == sub[j - 1]);
                    }
                }
            },
        }
    }
}

/// What completing a task does to the store's tasks: the first task with
/// the given id gains a completion timestamp if it is pending; a second
/// completion, or an unknown id, changes nothing and reports failure.
pub open spec fn spec_complete(views: Seq<TaskView>, id: i64, now: i64) -> (Seq<TaskView>, bool) {
    match spec_find_id(views, id) {
        Some(i) => if views[i].completed_at is None {
            (views.update(i, TaskView { completed_at: Some(now), ..views[i] }), true)
        } else {
            (views, false)
        },
        None => (views, false),
    }
}

/// What deleting a task does to the store's tasks.
pub open spec fn spec_delete(views: Seq<TaskView>, id: i64) -> (Seq<TaskView>, bool) {
    match spec_find_id(views, id) {
        Some(i) => (views.remove(i), true),
        None => (views, false),
    }
}

/// What a partial update does: every caller-editable field of the first
/// task with the given id takes the patch's value; the id, the creation
/// instant and the completion state never change.
pub open spec fn spec_update(views: Seq<TaskView>, id: i64, patch: TaskView) -> (
    Seq<TaskView>,
    bool,
) {
    match spec_find_id(views, id) {
        Some(i) => (
            views.update(
                i,
                TaskView {
                    id: views[i].id,
                    created_at: views[i].created_at,
                    completed_at: views[i].completed_at,
                    ..patch
                },
            ),
            true,
        ),
        None => (views, false),
    }
}

/// Filtering keeps every id sound: each kept task is one of the source
/// tasks, so id bounds and distinctness carry over.
proof fn lemma_filter_keeps_ids(views: Seq<TaskView>, pred: spec_fn(TaskView) -> bool, bound: i64)
    requires
        forall|i: int| 0 <= i < views.len() ==> 1 <= (#[trigger] views[i].id) < bound,
        forall|i: int, j: int|
            0 <= i < j < views.len() ==> (#[trigger] views[i].id) != (#[trigger] views[j].id),
    ensures
        forall|k: int|
            0 <= k < views.filter(pred).len() ==> 1 <= (#[trigger] views.filter(pred)[k].id)
                < bound,
        forall|k: int, l: int|
            0 <= k < l < views.filter(pred).len() ==> (#[trigger] views.filter(pred)[k].id) != (
            #[trigger] views.filter(pred)[l].id),
        forall|k: int|
            0 <= k < views.filter(pred).len() ==> views.contains(#[trigger] views.filter(pred)[k]),
    decreases views.len(),
{
    reveal(Seq::filter);
    if views.len() > 0 {
        let rest = views.drop_last();
        let last = views.last();
        assert(forall|i: int| 0 <= i < rest.len() ==> #[trigger] rest[i] == views[i]);
        lemma_filter_keeps_ids(rest, pred, bound);
        let rf = rest.filter(pred);
        let vf = views.filter(pred);
        assert forall|k: int| 0 <= k < rf.len() implies views.contains(#[trigger] rf[k]) by {
            assert(rest.contains(rf[k]));
            let idx = choose|idx: int| 0 <= idx < rest.len() && rest[idx] == rf[k];
            assert(views[idx] == rf[k]);
        }
        if pred(last) {
            assert(vf == rf.push(last));
            assert forall|k: int, l: int| 0 <= k < l < vf.len() implies (#[trigger] vf[k].id) != (
            #[trigger] vf[l].id) by {
                if l == vf.len() - 1 {
                    assert(vf[l] == last);
                    assert(rest.contains(rf[k]));
                    let idx = choose|idx: int| 0 <= idx < rest.len() && rest[idx] == rf[k];
                    assert(views[idx].id != views[views.len() - 1].id);
                } else {
                    assert(vf[k] == rf[k] && vf[l] == rf[l]);
                }
            }
            assert forall|k: int| 0 <= k < vf.len() implies views.contains(#[trigger] vf[k]) by {
                if k == vf.len() - 1 {
                    assert(views[views.len() - 1] == last);
                } else {
                    assert(vf[k] == rf[k]);
                }
            }
            assert forall|k: int| 0 <= k < vf.len() implies 1 <= (#[trigger] vf[k].id)
                < bound by {
                if k == vf.len() - 1 {
                    assert(vf[k] == views[views.len() - 1]);
                } else {
                    assert(vf[k] == rf[k]);
                }
            }
        } else {
            assert(vf == rf);
        }
    }
}

/// The task collection and the configuration record. Ids are assigned by
/// the store, monotonically increasing, and never reused within one
/// store value.
pub struct Database {
    tasks: Vec<Task>,
    next_id: i64,
    config: Option<ReminderConfig>,
}

impl Database {
    /// The tasks the store holds, in insertion order.
    pub closed spec fn views(&self) -> Seq<TaskView> {
        views_of(self.tasks@)
    }

    /// The id the next inserted task will get.
    pub closed spec fn spec_next_id(&self) -> i64 {
        self.next_id
    }

    /// The saved configuration record, if one was saved.
    pub closed spec fn spec_config(&self) -> Option<ReminderConfig> {
        self.config
    }

    /// Every task's id is at least 1 and below the next fresh id, and no
    /// two tasks share an id.
    pub closed spec fn wf(&self) -> bool {
        &&& self.next_id >= 1
        &&& forall|i: int|
            0 <= i < self.views().len() ==> 1 <= (#[trigger] self.views()[i].id)
                < self.next_id
        &&& forall|i: int, j: int|
            0 <= i < j < self.views().len() ==> (#[trigger] self.views()[i].id) != (
            #[trigger] self.views()[j].id)
    }

    /// The id the next inserted task will get, for callers that must
    /// test it before asking for an insertion.
    pub fn next_id_value(&self) -> (r: i64)
        ensures
            r == self.spec_next_id(),
    {
        self.next_id
    }

    /// An empty store.
    pub fn new() -> (r: Database)
        ensures
            r.wf(),
            r.views() == Seq::<TaskView>::empty(),
            r.spec_next_id() == 1,
            r.spec_config() is None,
    {
        let r = Database { tasks: Vec::new(), next_id: 1, config: None };
        proof {
            assert(r.views() =~= Seq::<TaskView>::empty());
        }
        r
    }

    /// Rebuilds a store from persisted rows. Succeeds exactly when the
    /// rows are sound — every id at least 1 and below `next_id`, no id
    /// repeated — and fails with [`TodoError::StoreUnavailable`]
    /// otherwise: the store must not come up from rows it cannot trust.
    pub fn from_rows(tasks: Vec<Task>, next_id: i64, config: Option<ReminderConfig>) -> (r: Result<
        Database,
        TodoError,
    >)
        ensures
            ({
                let views = views_of(tasks@);
                let sound = next_id >= 1 && (forall|i: int|
                    0 <= i < views.len() ==> 1 <= (#[trigger] views[i].id) < next_id) && (forall|
                    i: int,
                    j: int,
                |
                    0 <= i < j < views.len() ==> (#[trigger] views[i].id) != (
                    #[trigger] views[j].id));
                match r {
                    Ok(db) => sound && db.wf() && db.views() == views && db.spec_next_id()
                        == next_id && db.spec_config() == config,
                    Err(e) => !sound && e == TodoError::StoreUnavailable,
                }
            }),
    {
        let ghost views = views_of(tasks@);
        if next_id < 1 {
            return Err(TodoError::StoreUnavailable);
        }
        let n = tasks.len();
        let mut i: usize = 0;
        while i < n
            invariant
                i <= n,
                n == tasks@.len(),
                views == views_of(tasks@),
                next_id >= 1,
                forall|k: int| 0 <= k < i ==> 1 <= (#[trigger] views[k].id) < next_id,
                forall|k: int, j: int|
                    0 <= k < j < i ==> (#[trigger] views[k].id) != (#[trigger] views[j].id),
            decreases n - i,
        {
            let ti = tasks[i].id;
            proof {
                assert(views[i as int] == tasks@[i as int]@);
            }
            if ti < 1 || ti >= next_id {
                proof {
                    assert(!(forall|k: int|
                        0 <= k < views.len() ==> 1 <= (#[trigger] views[k].id) < next_id)) by {
                        assert(!(1 <= views[i as int].id < next_id));
                    }
                }
                return Err(TodoError::StoreUnavailable);
            }
            let mut j: usize = 0;
            while j < i
                invariant
                    j <= i < n,
                    n == tasks@.len(),
                    views == views_of(tasks@),
                    ti == views[i as int].id,
                    forall|k: int| 0 <= k < j ==> (#[trigger] views[k].id) != ti,
                decreases i - j,
            {
                proof {
                    assert(views[j as int] == tasks@[j as int]@);
                }
                if tasks[j].id == ti {
                    proof {
                        assert(!(forall|k: int, l: int|
                            0 <= k < l < views.len() ==> (#[trigger] views[k].id) != (
                            #[trigger] views[l].id))) by {
                            assert(views[j as int].id == views[i as int].id);
                        }
                    }
                    return Err(TodoError::StoreUnavailable);
                }
                j = j + 1;
            }
            i = i + 1;
        }
        let db = Database { tasks, next_id, config };
        proof {
            assert(db.views() == views);
            assert forall|k: int, j: int| 0 <= k < j < views.len() implies (
            #[trigger] views[k].id) != (#[trigger] views[j].id) by {}
        }
        Ok(db)
    }

    /// Inserts a task under a fresh id and yields that id; every field
    /// but the id is taken from the argument as given.
    pub fn add_task(&mut self, task: &Task) -> (id: i64)
        requires
            old(self).wf(),
            old(self).spec_next_id() < i64::MAX,
        ensures
            final(self).wf(),
            id == old(self).spec_next_id(),
            final(self).spec_next_id() == id + 1,
            final(self).spec_config() == old(self).spec_config(),
            final(self).views() == old(self).views().push(TaskView { id: id, ..task@ }),
    {
        let id = self.next_id;
        let mut t = task.clone();
        t.id = id;
        proof {
            assert(t@ == TaskView { id: id, ..task@ });
        }
        self.tasks.push(t);
        self.next_id = id + 1;
        proof {
            assert(final(self).views() =~= old(self).views().push(TaskView { id: id, ..task@ }));
        }
        id
    }

    /// Looks a task up by id; yields a copy of it, or nothing when no
    /// task carries the id.
    pub fn get_task(&self, id: i64) -> (r: Option<Task>)
        ensures
            match spec_find_id(self.views(), id) {
                Some(i) => r matches Some(t) && t@ == self.views()[i],
                None => r is None,
            },
    {
        match self.find_index(id) {
            Some(i) => Some(self.tasks[i].clone()),
            None => None,
        }
    }

    /// Position of the first task with the given id.
    fn find_index(&self, id: i64) -> (r: Option<usize>)
        ensures
            match r {
                Some(i) => i < self.views().len() && spec_find_id(self.views(), id) == Some(
                    i as int,
                ),
                None => spec_find_id(self.views(), id) is None,
            },
    {
        let ghost views = self.views();
        proof {
            lemma_find_id(views, id);
        }
        let n = self.tasks.len();
        let mut i: usize = 0;
        while i < n
            invariant
                i <= n,
                n == self.tasks@.len(),
                views == self.views(),
                forall|j: int| 0 <= j < i ==> (#[trigger] views[j].id) != id,
                match spec_find_id(views, id) {
                    Some(m) => 0 <= m < views.len() && views[m].id == id && forall|j: int|
                        0 <= j < m ==> (#[trigger] views[j].id) != id,
                    None => forall|j: int| 0 <= j < views.len() ==> (#[trigger] views[j].id) != id,
                },
            decreases n - i,
        {
            proof {
                assert(views[i as int] == self.tasks@[i as int]@);
            }
            if self.tasks[i].id == id {
                proof {
                    match spec_find_id(views, id) {
                        Some(m) => {
                            if m < i {
                                assert(views[m].id != id);
                            } else if m > i {
                                assert(views[i as int].id != id);
                            }
                        },
                        None => {
                            assert(views[i as int].id != id);
                        },
                    }
                }
                return Some(i);
            }
            i = i + 1;
        }
        None
    }

    /// The saved configuration, or the default one when none was ever
    /// saved.
    pub fn get_config(&self) -> (r: ReminderConfig)
        ensures
            r == match self.spec_config() {
                Some(c) => c,
                None => default_config(),
            },
    {
        match self.config {
            Some(c) => c,
            None => ReminderConfig::default(),
        }
    }

    /// A fresh listing: the completed tasks are kept or dropped as asked,
    /// the pending ones always kept, and the result is ordered by
    /// priority (weightiest first) and then by creation (earliest first).
    pub fn list_tasks(&self, include_completed: bool) -> (r: Vec<Task>)
        ensures
            views_of(r@).to_multiset() == self.views().filter(
                keep_pred(include_completed),
            ).to_multiset(),
            sorted_by(views_of(r@), list_order()),
    {
        let ghost views = self.views();
        let ghost pred = keep_pred(include_completed);
        let mut out: Vec<Task> = Vec::new();
        let n = self.tasks.len();
        let mut i: usize = 0;
        proof {
            reveal(Seq::filter);
            assert(views.take(0).filter(pred) =~= Seq::<TaskView>::empty());
            assert(views_of(out@) =~= Seq::<TaskView>::empty());
        }
        while i < n
            invariant
                i <= n,
                n == self.tasks@.len(),
                views == self.views(),
                pred == keep_pred(include_completed),
                views_of(out@) == views.take(i as int).filter(pred),
            decreases n - i,
        {
            proof {
                assert(views.take(i + 1).drop_last() =~= views.take(i as int));
                assert(views.take(i + 1) =~= views.take(i as int).push(views[i as int]));
                lemma_filter_push(views.take(i as int), pred, views[i as int]);
                assert(views[i as int] == self.tasks@[i as int]@);
            }
            if include_completed || self.tasks[i].completed_at.is_none() {
                let ghost outpre = out@;
                out.push(self.tasks[i].clone());
                proof {
                    assert(views_of(out@) =~= views_of(outpre).push(views[i as int]));
                }
            }
            i = i + 1;
        }
        proof {
            assert(views.take(n as int) =~= views);
        }
        sort_by_list_order(&mut out);
        out
    }

    /// Saves the configuration record, replacing any saved one.
    pub fn save_config(&mut self, config: &ReminderConfig)
        ensures
            final(self).spec_config() == Some(*config),
            final(self).views() == old(self).views(),
            final(self).spec_next_id() == old(self).spec_next_id(),
            old(self).wf() ==> final(self).wf(),
    {
        self.config = Some(*config);
    }

    /// The single pending task to work on now: the least pending task in
    /// the next-task order, or nothing when no task is pending.
    #[verifier::loop_isolation(false)]
    pub fn get_next_task(&self) -> (r: Option<Task>)
        ensures
            match r {
                Some(t) => t@.is_pending() && self.views().contains(t@) && forall|j: int|
                    0 <= j < self.views().len() && (#[trigger] self.views()[j]).is_pending()
                        ==> next_le(t@, self.views()[j]),
                None => forall|j: int|
                    0 <= j < self.views().len() ==> !(#[trigger] self.views()[j]).is_pending(),
            },
    {
        proof {
            lemma_orders_total();
        }
        let ghost views = self.views();
        let n = self.tasks.len();
        let mut best: usize = 0;
        let mut found = false;
        let mut i: usize = 0;
        while i < n
            invariant
                i <= n,
                found ==> best < i && views[best as int].is_pending() && forall|j: int|
                    0 <= j < i && (#[trigger] views[j]).is_pending() ==> next_le(
                        views[best as int],
                        views[j],
                    ),
                !found ==> forall|j: int| 0 <= j < i ==> !(#[trigger] views[j]).is_pending(),
            decreases n - i,
        {
            proof {
                assert(views[i as int] == self.tasks@[i as int]@);
            }
            if self.tasks[i].completed_at.is_none() {
                if !found {
                    best = i;
                    found = true;
                } else if !next_le_exec(&self.tasks[best], &self.tasks[i]) {
                    proof {
                        assert(views[best as int] == self.tasks@[best as int]@);
                        assert(next_le(views[i as int], views[best as int]));
                    }
                    best = i;
                }
            }
            i = i + 1;
        }
        if found {
            let t = self.tasks[best].clone();
            proof {
                assert(t@ == views[best as int]);
                assert(views.contains(t@));
            }
            Some(t)
        } else {
            None
        }
    }

    /// Stamps the task with the given id as completed at `now`, only if
    /// it is pending; completing an already-completed or unknown task
    /// reports false and mutates nothing.
    pub fn complete_task(&mut self, id: i64, now: i64) -> (r: bool)
        requires
            old(self).wf(),
        ensures
            final(self).wf(),
            final(self).spec_next_id() == old(self).spec_next_id(),
            final(self).spec_config() == old(self).spec_config(),
            final(self).views() == spec_complete(old(self).views(), id, now).0,
            r == spec_complete(old(self).views(), id, now).1,
    {
        let ghost views = self.views();
        match self.find_index(id) {
            Some(i) => {
                if self.tasks[i].completed_at.is_none() {
                    let mut t = self.tasks[i].clone();
                    t.completed_at = Some(now);
                    proof {
                        assert(t@ == TaskView { completed_at: Some(now), ..views[i as int] });
                    }
                    self.tasks.set(i, t);
                    proof {
                        assert(final(self).views() =~= views.update(
                            i as int,
                            TaskView { completed_at: Some(now), ..views[i as int] },
                        ));
                        assert(forall|k: int|
                            0 <= k < final(self).views().len() ==> (
                            #[trigger] final(self).views()[k].id) == views[k].id);
                    }
                    true
                } else {
                    false
                }
            },
            None => false,
        }
    }

    /// Removes the task with the given id; reports whether one existed.
    pub fn delete_task(&mut self, id: i64) -> (r: bool)
        requires
            old(self).wf(),
        ensures
            final(self).wf(),
            final(self).spec_next_id() == old(self).spec_next_id(),
            final(self).spec_config() == old(self).spec_config(),
            final(self).views() == spec_delete(old(self).views(), id).0,
            r == spec_delete(old(self).views(), id).1,
    {
        let ghost views = self.views();
        match self.find_index(id) {
            Some(i) => {
                let _removed = self.tasks.remove(i);
                proof {
                    assert(final(self).views() =~= views.remove(i as int));
                    let post = final(self).views();
                    assert forall|k: int| 0 <= k < post.len() implies 1 <= (#[trigger] post[k].id)
                        < self.next_id by {
                        if k < i {
                            assert(post[k] == views[k]);
                        } else {
                            assert(post[k] == views[k + 1]);
                        }
                    }
                    assert forall|k: int, l: int| 0 <= k < l < post.len() implies (
                    #[trigger] post[k].id) != (#[trigger] post[l].id) by {
                        let k0 = if k < i {
                            k
                        } else {
                            k + 1
                        };
                        let l0 = if l < i {
                            l
                        } else {
                            l + 1
                        };
                        assert(post[k] == views[k0] && post[l] == views[l0]);
                        assert(views[k0].id != views[l0].id);
                    }
                }
                true
            },
            None => false,
        }
    }

    /// Removes every completed task and reports how many were removed;
    /// the pending tasks stay, in their stored order.
    #[verifier::loop_isolation(false)]
    pub fn clear_completed(&mut self) -> (r: u64)
        requires
            old(self).wf(),
        ensures
            final(self).wf(),
            final(self).spec_next_id() == old(self).spec_next_id(),
            final(self).spec_config() == old(self).spec_config(),
            final(self).views() == old(self).views().filter(pending_only()),
            r == old(self).views().len() - final(self).views().len(),
    {
        let ghost views = self.views();
        let ghost pred = pending_only();
        let mut out: Vec<Task> = Vec::new();
        let n = self.tasks.len();
        let mut i: usize = 0;
        proof {
            reveal(Seq::filter);
            assert(views.take(0).filter(pred) =~= Seq::<TaskView>::empty());
            assert(views_of(out@) =~= Seq::<TaskView>::empty());
        }
        while i < n
            invariant
                i <= n,
                out@.len() <= i,
                views_of(out@) == views.take(i as int).filter(pred),
            decreases n - i,
        {
            proof {
                assert(views.take(i + 1).drop_last() =~= views.take(i as int));
                assert(views.take(i + 1) =~= views.take(i as int).push(views[i as int]));
                lemma_filter_push(views.take(i as int), pred, views[i as int]);
                assert(views[i as int] == self.tasks@[i as int]@);
            }
            if self.tasks[i].completed_at.is_none() {
                let ghost outpre = out@;
                out.push(self.tasks[i].clone());
                proof {
                    assert(views_of(out@) =~= views_of(outpre).push(views[i as int]));
                }
            }
            i = i + 1;
        }
        let kept = out.len();
        self.tasks = out;
        proof {
            assert(views.take(n as int) =~= views);
            lemma_filter_keeps_ids(views, pred, self.next_id);
        }
        (n - kept) as u64
    }

    /// Removes every task and reports how many there were.
    pub fn reset_all(&mut self) -> (r: u64)
        requires
            old(self).wf(),
        ensures
            final(self).wf(),
            final(self).spec_next_id() == old(self).spec_next_id(),
            final(self).spec_config() == old(self).spec_config(),
            final(self).views() == Seq::<TaskView>::empty(),
            r == old(self).views().len(),
    {
        let n = self.tasks.len();
        self.tasks = Vec::new();
        proof {
            assert(final(self).views() =~= Seq::<TaskView>::empty());
        }
        n as u64
    }

    /// Overwrites the caller-editable fields of the task with the given
    /// id from the patch; the id, the creation instant and the
    /// completion state never change. Reports whether the task existed.
    pub fn update_task(&mut self, id: i64, task: &Task) -> (r: bool)
        requires
            old(self).wf(),
        ensures
            final(self).wf(),
            final(self).spec_next_id() == old(self).spec_next_id(),
            final(self).spec_config() == old(self).spec_config(),
            final(self).views() == spec_update(old(self).views(), id, task@).0,
            r == spec_update(old(self).views(), id, task@).1,
    {
        let ghost views = self.views();
        match self.find_index(id) {
            Some(i) => {
                let mut t = task.clone();
                t.id = self.tasks[i].id;
                t.created_at = self.tasks[i].created_at;
                t.completed_at = self.tasks[i].completed_at;
                proof {
                    assert(t@ == TaskView {
                        id: views[i as int].id,
                        created_at: views[i as int].created_at,
                        completed_at: views[i as int].completed_at,
                        ..task@
                    });
                }
                self.tasks.set(i, t);
                proof {
                    assert(final(self).views() =~= views.update(i as int, t@));
                    assert(forall|k: int|
                        0 <= k < final(self).views().len() ==> (
                        #[trigger] final(self).views()[k].id) == views[k].id);
                }
                true
            },
            None => false,
        }
    }

    /// Validates and inserts: a digits-only title is rejected, then a
    /// title already carried by a pending task (ignoring ASCII case) is
    /// rejected, and otherwise the task is inserted under a fresh id.
    /// Failed validation mutates nothing.
    #[verifier::loop_isolation(false)]
    pub fn add_task_checked(&mut self, task: &Task) -> (r: Result<i64, TodoError>)
        requires
            old(self).wf(),
            old(self).spec_next_id() < i64::MAX,
        ensures
            final(self).wf(),
            final(self).spec_config() == old(self).spec_config(),
            ({
                let views = old(self).views();
                let dup = exists|i: int|
                    0 <= i < views.len() && (#[trigger] views[i]).is_pending()
                        && text::chars_eq_ic(views[i].title, task@.title);
                if task@.title.len() > 0 && text::all_digits(task@.title) {
                    &&& r == Err::<i64, TodoError>(TodoError::NumericTitleRejected)
                    &&& final(self).views() == views
                    &&& final(self).spec_next_id() == old(self).spec_next_id()
                } else if dup {
                    &&& r == Err::<i64, TodoError>(TodoError::DuplicateTitle)
                    &&& final(self).views() == views
                    &&& final(self).spec_next_id() == old(self).spec_next_id()
                } else {
                    &&& r == Ok::<i64, TodoError>(old(self).spec_next_id())
                    &&& final(self).views() == views.push(
                        (TaskView { id: old(self).spec_next_id(), ..task@ }),
                    )
                    &&& final(self).spec_next_id() == old(self).spec_next_id() + 1
                }
            }),
    {
        if text::is_pure_numeric(task.title.as_str()) {
            return Err(TodoError::NumericTitleRejected);
        }
        let ghost views = self.views();
        let n = self.tasks.len();
        let mut i: usize = 0;
        while i < n
            invariant
                i <= n,
                forall|j: int|
                    0 <= j < i ==> !((#[trigger] views[j]).is_pending() && text::chars_eq_ic(
                        views[j].title,
                        task@.title,
                    )),
            decreases n - i,
        {
            proof {
                assert(views[i as int] == self.tasks@[i as int]@);
            }
            if self.tasks[i].completed_at.is_none() && text::str_eq_ignore_case(
                self.tasks[i].title.as_str(),
                task.title.as_str(),
            ) {
                proof {
                    assert(views[i as int].is_pending() && text::chars_eq_ic(
                        views[i as int].title,
                        task@.title,
                    ));
                }
                return Err(TodoError::DuplicateTitle);
            }
            i = i + 1;
        }
        let id = self.add_task(task);
        Ok(id)
    }
}

/// The next-task selection is consistent with the pending listing: both
/// read the same pending predicate, so any pending task the store holds
/// — in particular the selected one — appears in the pending listing's
/// content.
pub proof fn lemma_next_in_pending_listing(views: Seq<TaskView>, t: TaskView)
    requires
        views.contains(t),
        t.is_pending(),
    ensures
        views.filter(pending_only()).contains(t),
        views.filter(pending_only()).to_multiset().count(t) > 0,
{
    broadcast use vstd::seq_lib::group_to_multiset_ensures;

    let i = choose|i: int| 0 <= i < views.len() && views[i] == t;
    assert(pending_only()(views[i]));
    views.lemma_filter_contains(pending_only(), i);
}

/// Completing a task is idempotent: after completing it once —
/// successfully or not — a second completion under the same id reports
/// failure and leaves every task, and in particular the completion
/// instant, unchanged.
pub proof fn lemma_complete_idempotent(views: Seq<TaskView>, id: i64, n1: i64, n2: i64)
    ensures
        spec_complete(spec_complete(views, id, n1).0, id, n2).0 == spec_complete(views, id, n1).0,
        spec_complete(spec_complete(views, id, n1).0, id, n2).1 == false,
{
    lemma_find_id(views, id);
    match spec_find_id(views, id) {
        None => {},
        Some(i) => {
            if views[i].completed_at is None {
                let updated = views.update(i, TaskView { completed_at: Some(n1), ..views[i] });
                lemma_find_id(updated, id);
                assert(forall|j: int|
                    0 <= j < updated.len() ==> (#[trigger] updated[j].id) == views[j].id);
                match spec_find_id(updated, id) {
                    Some(m) => {
                        if m < i {
                            assert(views[m].id != id);
                            assert(updated[m].id == id);
                        } else if m > i {
                            assert(updated[i].id != id);
                            assert(views[i].id == id);
                        }
                        assert(m == i);
                        assert(updated[i].completed_at is Some);
                    },
                    None => {
                        assert(updated[i].id != id);
                        assert(views[i].id == id);
                    },
                }
            }
        },
    }
}

} // verus!
