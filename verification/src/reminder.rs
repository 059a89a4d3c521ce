//! The reminder engine: given the configuration and the current pending
//! listing, decides whether anything is to be delivered and constructs
//! the message payload. Delivery itself — desktop notification, wall
//! broadcast — is an external collaborator's work, is best-effort, and
//! its failures are swallowed there; rendering the payload as text is
//! the presentation layer's work.

use crate::models::{views_of, ReminderConfig, Task, TaskView};
use crate::selector;
use vstd::prelude::*;

verus! {

/// Annotation of one task line in a reminder message.
#[derive(Clone, Copy, Debug, PartialEq, Eq, Structural)]
pub enum DueMark {
    /// The task's due instant is in the past.
    Overdue,
    /// Due within 24 hours: the count of whole hours left, at most 24.
    DueInHours(u8),
    /// No due instant, or one beyond 24 hours.
    Plain,
}

/// One line of a reminder message: the task's 1-based position in the
/// pending listing, its title, and its annotation.
pub struct ReminderLine {
    pub index: usize,
    pub title: String,
    pub mark: DueMark,
}

/// The header of a reminder message: the single pending task's title
/// when exactly one task is pending, else the pending count.
pub enum ReminderHeader {
    SingleTask(String),
    PendingCount(usize),
}

/// The payload of one reminder: a header and one line per pending task,
/// in the listing's order.
pub struct ReminderMessage {
    pub header: ReminderHeader,
    pub lines: Vec<ReminderLine>,
}

/// What one reminder check decides.
pub enum ReminderOutcome {
    /// Reminders are switched off; nothing is produced.
    Disabled,
    /// No task is pending; nothing is produced.
    NothingPending,
    /// A message to deliver.
    Remind(ReminderMessage),
}

/// The annotation a task gets at instant `now`: overdue beats due-soon,
/// and a due-soon task is tagged with the whole hours left.
pub open spec fn spec_due_mark(t: TaskView, now: i64) -> DueMark {
    if t.spec_is_overdue(now) {
        DueMark::Overdue
    } else if t.spec_due_soon(now) {
        DueMark::DueInHours((((t.due_at->0 - now) / 3600) as u8))
    } else {
        DueMark::Plain
    }
}

fn due_mark(task: &Task, now: i64) -> (m: DueMark)
    ensures
        m == spec_due_mark(task@, now),
{
    if task.is_overdue(now) {
        DueMark::Overdue
    } else if selector::due_soon(task, now) {
        match task.due_at {
            Some(d) => {
                let h: u8 = ((d as i128 - now as i128) / 3600) as u8;
                DueMark::DueInHours(h)
            },
            None => DueMark::Plain,
        }
    } else {
        DueMark::Plain
    }
}

/// Runs one reminder check at instant `now` over the pending listing:
/// nothing when reminders are disabled or nothing is pending, else a
/// message whose header names the single pending task or counts them,
/// and whose lines annotate each task in the listing's order.
pub fn check_reminders(config: &ReminderConfig, pending: &Vec<Task>, now: i64) -> (r:
    ReminderOutcome)
    ensures
        ({
            let views = views_of(pending@);
            if !config.enabled {
                r is Disabled
            } else if views.len() == 0 {
                r is NothingPending
            } else {
                r matches ReminderOutcome::Remind(msg) && {
                    &&& match msg.header {
                        ReminderHeader::SingleTask(t) => views.len() == 1 && t@ == views[0].title,
                        ReminderHeader::PendingCount(c) => views.len() != 1 && c == views.len(),
                    }
                    &&& msg.lines@.len() == views.len()
                    &&& forall|i: int|
                        0 <= i < views.len() ==> {
                            let ln = #[trigger] msg.lines@[i];
                            ln.index == i + 1 && ln.title@ == views[i].title && ln.mark
                                == spec_due_mark(views[i], now)
                        }
                }
            }
        }),
{
    let ghost views = views_of(pending@);
    if !config.enabled {
        return ReminderOutcome::Disabled;
    }
    let n = pending.len();
    if n == 0 {
        return ReminderOutcome::NothingPending;
    }
    let header = if n == 1 {
        ReminderHeader::SingleTask(pending[0].title.clone())
    } else {
        ReminderHeader::PendingCount(n)
    };
    let mut lines: Vec<ReminderLine> = Vec::new();
    let mut i: usize = 0;
    while i < n
        invariant
            i <= n,
            n == pending@.len(),
            views == views_of(pending@),
            lines@.len() == i,
            forall|j: int|
                0 <= j < i ==> {
                    let ln = #[trigger] lines@[j];
                    ln.index == j + 1 && ln.title@ == views[j].title && ln.mark == spec_due_mark(
                        views[j],
                        now,
                    )
                },
        decreases n - i,
    {
        proof {
            assert(views[i as int] == pending@[i as int]@);
        }
        let mark = due_mark(&pending[i], now);
        lines.push(ReminderLine { index: i + 1, title: pending[i].title.clone(), mark });
        i = i + 1;
    }
    ReminderOutcome::Remind(ReminderMessage { header, lines })
}

/// Which delivery channels one reminder uses.
#[derive(Clone, Copy, Debug, PartialEq, Eq, Structural)]
pub struct DeliveryPlan {
    pub notify: bool,
    pub wall: bool,
}

/// Decides the channels for a reminder delivered in the given hour of
/// day: the desktop notification fires whenever reminders and its toggle
/// are on — it is never suppressed — while the wall broadcast also
/// requires the hour to fall outside the quiet window.
pub fn delivery_plan(config: &ReminderConfig, hour: u32) -> (r: DeliveryPlan)
    ensures
        r.notify == (config.enabled && config.use_notify_send),
        r.wall == (config.enabled && config.use_wall && !config.spec_quiet_at(hour)),
{
    DeliveryPlan {
        notify: config.enabled && config.use_notify_send,
        wall: config.enabled && config.use_wall && !config.is_wall_quiet_hours(hour),
    }
}

} // verus!
