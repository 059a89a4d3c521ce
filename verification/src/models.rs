//! Data model: tasks, priorities, the reminder configuration and the
//! error taxonomy. Timestamps are absolute instants in seconds since the
//! Unix epoch, UTC; hours of day are in `0..24`.

use vstd::prelude::*;

verus! {

/// Priority of a task, totally ordered `Low < Medium < High < Critical`.
#[derive(Clone, Copy, Debug, PartialEq, Eq, Structural)]
pub enum Priority {
    Low,
    Medium,
    High,
    Critical,
}

impl Priority {
    /// Numeric rank of the priority; larger means more urgent.
    pub open spec fn spec_weight(&self) -> u8 {
        match self {
            Priority::Low => 1,
            Priority::Medium => 2,
            Priority::High => 3,
            Priority::Critical => 4,
        }
    }

    /// Icon shown for this priority.
    pub fn as_str(&self) -> (r: &'static str)
        ensures
            r@ == self.spec_icon(),
    {
        match self {
            Priority::Low => "🟢",
            Priority::Medium => "🟡",
            Priority::High => "🟠",
            Priority::Critical => "🔴",
        }
    }

    pub open spec fn spec_icon(self) -> Seq<char> {
        match self {
            Priority::Low => "🟢"@,
            Priority::Medium => "🟡"@,
            Priority::High => "🟠"@,
            Priority::Critical => "🔴"@,
        }
    }

    #[verifier::when_used_as_spec(spec_weight)]
    pub fn weight(&self) -> (w: u8)
        ensures
            w == self.spec_weight(),
    {
        match self {
            Priority::Low => 1,
            Priority::Medium => 2,
            Priority::High => 3,
            Priority::Critical => 4,
        }
    }
}

/// A unit of work. `completed_at` of `None` means the task is pending.
#[derive(Debug)]
pub struct Task {
    pub id: i64,
    pub title: String,
    pub description: Option<String>,
    pub priority: Priority,
    pub created_at: i64,
    pub due_at: Option<i64>,
    pub completed_at: Option<i64>,
    pub tags: Vec<String>,
    pub project: Option<String>,
    pub estimated_minutes: Option<u32>,
}

/// Mathematical value of a [`Task`]: the same fields with every string
/// replaced by its sequence of characters.
pub ghost struct TaskView {
    pub id: i64,
    pub title: Seq<char>,
    pub description: Option<Seq<char>>,
    pub priority: Priority,
    pub created_at: i64,
    pub due_at: Option<i64>,
    pub completed_at: Option<i64>,
    pub tags: Seq<Seq<char>>,
    pub project: Option<Seq<char>>,
    pub estimated_minutes: Option<u32>,
}

impl View for Task {
    type V = TaskView;

    open spec fn view(&self) -> TaskView {
        TaskView {
            id: self.id,
            title: self.title@,
            description: self.description.deep_view(),
            priority: self.priority,
            created_at: self.created_at,
            due_at: self.due_at,
            completed_at: self.completed_at,
            tags: self.tags.deep_view(),
            project: self.project.deep_view(),
            estimated_minutes: self.estimated_minutes,
        }
    }
}

impl Clone for Task {
    fn clone(&self) -> (r: Self)
        ensures
            r@ == self@,
    {
        let r = Task {
            id: self.id,
            title: self.title.clone(),
            description: clone_opt_string(&self.description),
            priority: self.priority,
            created_at: self.created_at,
            due_at: self.due_at,
            completed_at: self.completed_at,
            tags: clone_string_vec(&self.tags),
            project: clone_opt_string(&self.project),
            estimated_minutes: self.estimated_minutes,
        };
        assert(r@ == self@);
        r
    }
}

fn clone_opt_string(s: &Option<String>) -> (r: Option<String>)
    ensures
        r.deep_view() == s.deep_view(),
{
    match s {
        Some(x) => Some(x.clone()),
        None => None,
    }
}

fn clone_string_vec(v: &Vec<String>) -> (r: Vec<String>)
    ensures
        r.deep_view() == v.deep_view(),
{
    let mut r: Vec<String> = Vec::new();
    let mut i: usize = 0;
    while i < v.len()
        invariant
            i <= v.len(),
            r@.len() == i,
            forall|j: int| 0 <= j < i ==> r@[j]@ == v@[j]@,
        decreases v.len() - i,
    {
        r.push(v[i].clone());
        i = i + 1;
    }
    assert(r.deep_view() =~= v.deep_view());
    r
}

/// Views of the tasks of a listing, in the same order.
pub open spec fn views_of(ts: Seq<Task>) -> Seq<TaskView> {
    ts.map_values(|t: Task| t@)
}

impl TaskView {
    /// A task is pending when it has no completion timestamp.
    pub open spec fn is_pending(self) -> bool {
        self.completed_at is None
    }

    /// A task is overdue when it has a due instant strictly in the past
    /// and is still pending; a completed task is never overdue.
    pub open spec fn spec_is_overdue(self, now: i64) -> bool {
        &&& self.due_at is Some
        &&& self.due_at->0 < now
        &&& self.completed_at is None
    }

    /// A task is due soon when its due instant is strictly in the future
    /// and at most 24 hours away.
    pub open spec fn spec_due_soon(self, now: i64) -> bool {
        &&& self.due_at is Some
        &&& now < self.due_at->0
        &&& self.due_at->0 <= now + 86400
    }
}

/// A completed task is never overdue, whatever its due instant — even
/// one long past.
pub proof fn lemma_completed_never_overdue(t: TaskView, now: i64)
    requires
        t.completed_at is Some,
    ensures
        !t.spec_is_overdue(now),
{
}

impl Task {
    /// True when the task has a due instant in the past and is not completed.
    pub fn is_overdue(&self, now: i64) -> (r: bool)
        ensures
            r == self@.spec_is_overdue(now),
    {
        match self.due_at {
            Some(due) => due < now && self.completed_at.is_none(),
            None => false,
        }
    }

    /// True when the task carries a completion timestamp.
    pub fn is_completed(&self) -> (r: bool)
        ensures
            r == !self@.is_pending(),
    {
        self.completed_at.is_some()
    }
}

/// Settings for the recurring reminder check. The quiet window suppresses
/// the wall-broadcast channel only; desktop notifications are never
/// suppressed.
#[derive(Clone, Copy, Debug, PartialEq, Eq, Structural)]
pub struct ReminderConfig {
    pub enabled: bool,
    pub interval_minutes: u32,
    pub use_notify_send: bool,
    pub use_wall: bool,
    pub wall_quiet_start_hour: u32,
    pub wall_quiet_end_hour: u32,
    pub start_from_quiet_end: bool,
}

/// The configuration used until one is saved: reminders on every three
/// hours through desktop notifications, quiet from 18:00 to 09:00.
pub open spec fn default_config() -> ReminderConfig {
    ReminderConfig {
        enabled: true,
        interval_minutes: 180,
        use_notify_send: true,
        use_wall: false,
        wall_quiet_start_hour: 18,
        wall_quiet_end_hour: 9,
        start_from_quiet_end: false,
    }
}

impl Default for ReminderConfig {
    fn default() -> (r: Self)
        ensures
            r == default_config(),
    {
        ReminderConfig {
            enabled: true,
            interval_minutes: 180,
            use_notify_send: true,
            use_wall: false,
            wall_quiet_start_hour: 18,
            wall_quiet_end_hour: 9,
            start_from_quiet_end: false,
        }
    }
}

impl ReminderConfig {
    /// Both quiet-window bounds are hours of a day.
    pub open spec fn wf(self) -> bool {
        self.wall_quiet_start_hour <= 23 && self.wall_quiet_end_hour <= 23
    }

    /// The quiet window, inclusive at its start and exclusive at its end.
    /// When `start > end` the window wraps past midnight.
    pub open spec fn spec_quiet_at(self, hour: u32) -> bool {
        if self.wall_quiet_start_hour > self.wall_quiet_end_hour {
            hour >= self.wall_quiet_start_hour || hour < self.wall_quiet_end_hour
        } else {
            hour >= self.wall_quiet_start_hour && hour < self.wall_quiet_end_hour
        }
    }

    /// Decides whether the given hour of day falls in the wall quiet window.
    pub fn is_wall_quiet_hours(&self, hour: u32) -> (r: bool)
        ensures
            r == self.spec_quiet_at(hour),
    {
        if self.wall_quiet_start_hour > self.wall_quiet_end_hour {
            hour >= self.wall_quiet_start_hour || hour < self.wall_quiet_end_hour
        } else {
            hour >= self.wall_quiet_start_hour && hour < self.wall_quiet_end_hour
        }
    }
}

/// A partial change to a task: only the given fields are overwritten.
/// The due instant is doubly optional — giving `Some(None)` clears it —
/// while the other optional fields can only be set, never cleared. The
/// id, the creation instant and the completion state are not part of a
/// patch: they are never modifiable this way.
pub struct TaskPatch {
    pub title: Option<String>,
    pub description: Option<String>,
    pub priority: Option<Priority>,
    pub due_at: Option<Option<i64>>,
    pub project: Option<String>,
    pub tags: Option<Vec<String>>,
    pub estimated_minutes: Option<u32>,
}

/// The task as it stands after a partial update: each given field of the
/// patch replaces the task's, everything else — the id, the creation
/// instant and the completion state above all — stays.
pub fn patched(task: &Task, patch: &TaskPatch) -> (r: Task)
    ensures
        r@ == (TaskView {
            title: match patch.title {
                Some(ref t) => t@,
                None => task@.title,
            },
            description: match patch.description {
                Some(ref d) => Some(d@),
                None => task@.description,
            },
            priority: patch.priority.unwrap_or(task.priority),
            due_at: patch.due_at.unwrap_or(task@.due_at),
            project: match patch.project {
                Some(ref p) => Some(p@),
                None => task@.project,
            },
            tags: match patch.tags {
                Some(ref t) => t.deep_view(),
                None => task@.tags,
            },
            estimated_minutes: match patch.estimated_minutes {
                Some(e) => Some(e),
                None => task@.estimated_minutes,
            },
            ..task@
        }),
{
    let mut r = task.clone();
    if let Some(t) = &patch.title {
        r.title = t.clone();
    }
    if let Some(d) = &patch.description {
        r.description = Some(d.clone());
    }
    if let Some(p) = patch.priority {
        r.priority = p;
    }
    if let Some(d) = patch.due_at {
        r.due_at = d;
    }
    if let Some(p) = &patch.project {
        r.project = Some(p.clone());
    }
    if let Some(t) = &patch.tags {
        r.tags = clone_string_vec(t);
    }
    if let Some(e) = patch.estimated_minutes {
        r.estimated_minutes = Some(e);
    }
    r
}

/// A partial change to the reminder settings: only the given fields are
/// overwritten.
#[derive(Clone, Copy, Debug, PartialEq, Eq, Structural)]
pub struct ConfigPatch {
    pub enabled: Option<bool>,
    pub interval_minutes: Option<u32>,
    pub use_notify_send: Option<bool>,
    pub use_wall: Option<bool>,
    pub wall_quiet_start_hour: Option<u32>,
    pub wall_quiet_end_hour: Option<u32>,
    pub start_from_quiet_end: Option<bool>,
}

impl ConfigPatch {
    /// A patch that gives no field changes nothing.
    pub open spec fn is_empty(self) -> bool {
        &&& self.enabled is None
        &&& self.interval_minutes is None
        &&& self.use_notify_send is None
        &&& self.use_wall is None
        &&& self.wall_quiet_start_hour is None
        &&& self.wall_quiet_end_hour is None
        &&& self.start_from_quiet_end is None
    }
}

/// An hour of day: anything above 23 is clamped to 23.
pub open spec fn clamp_hour(h: u32) -> u32 {
    if h > 23 {
        23u32
    } else {
        h
    }
}

impl ReminderConfig {
    /// Applies a partial settings change: each given field replaces the
    /// saved one, the quiet-window hours clamped into a day. Also
    /// reports whether any field was given at all.
    pub fn apply_patch(&self, patch: &ConfigPatch) -> (r: (ReminderConfig, bool))
        ensures
            r.0.enabled == patch.enabled.unwrap_or(self.enabled),
            r.0.interval_minutes == patch.interval_minutes.unwrap_or(self.interval_minutes),
            r.0.use_notify_send == patch.use_notify_send.unwrap_or(self.use_notify_send),
            r.0.use_wall == patch.use_wall.unwrap_or(self.use_wall),
            r.0.wall_quiet_start_hour == match patch.wall_quiet_start_hour {
                Some(h) => clamp_hour(h),
                None => self.wall_quiet_start_hour,
            },
            r.0.wall_quiet_end_hour == match patch.wall_quiet_end_hour {
                Some(h) => clamp_hour(h),
                None => self.wall_quiet_end_hour,
            },
            r.0.start_from_quiet_end == patch.start_from_quiet_end.unwrap_or(
                self.start_from_quiet_end,
            ),
            r.1 == !patch.is_empty(),
            self.wf() ==> r.0.wf(),
    {
        let mut updated = *self;
        let mut changed = false;
        if let Some(e) = patch.enabled {
            updated.enabled = e;
            changed = true;
        }
        if let Some(m) = patch.interval_minutes {
            updated.interval_minutes = m;
            changed = true;
        }
        if let Some(n) = patch.use_notify_send {
            updated.use_notify_send = n;
            changed = true;
        }
        if let Some(w) = patch.use_wall {
            updated.use_wall = w;
            changed = true;
        }
        if let Some(h) = patch.wall_quiet_start_hour {
            updated.wall_quiet_start_hour = if h > 23 {
                23
            } else {
                h
            };
            changed = true;
        }
        if let Some(h) = patch.wall_quiet_end_hour {
            updated.wall_quiet_end_hour = if h > 23 {
                23
            } else {
                h
            };
            changed = true;
        }
        if let Some(s) = patch.start_from_quiet_end {
            updated.start_from_quiet_end = s;
            changed = true;
        }
        (updated, changed)
    }
}

/// Everything that can go wrong in the core. Delivery failures are not
/// here: delivery is best-effort and its failures are swallowed by the
/// collaborator that performs it.
#[derive(Clone, Copy, Debug, PartialEq, Eq, Structural)]
pub enum TodoError {
    /// A due-time expression was non-empty and matched no known form.
    InvalidTimeFormat,
    /// An interval expression matched no known form or did not fit.
    InvalidIntervalFormat,
    /// A new title matches an existing pending task's title, ignoring case.
    DuplicateTitle,
    /// A new title consists solely of decimal digits.
    NumericTitleRejected,
    /// A selector resolved to no task.
    NotFound,
    /// The underlying persistence could not be opened or initialized.
    StoreUnavailable,
}

impl TodoError {
    /// Human-readable description of the error.
    pub fn as_str(&self) -> (r: &'static str)
        ensures
            r@ == self.spec_message(),
    {
        match self {
            TodoError::InvalidTimeFormat => "cannot parse time format",
            TodoError::InvalidIntervalFormat => "invalid interval format",
            TodoError::DuplicateTitle => "a pending task with this title already exists",
            TodoError::NumericTitleRejected => "task title cannot be pure numeric",
            TodoError::NotFound => "task not found",
            TodoError::StoreUnavailable => "task store unavailable",
        }
    }

    pub open spec fn spec_message(self) -> Seq<char> {
        match self {
            TodoError::InvalidTimeFormat => "cannot parse time format"@,
            TodoError::InvalidIntervalFormat => "invalid interval format"@,
            TodoError::DuplicateTitle => "a pending task with this title already exists"@,
            TodoError::NumericTitleRejected => "task title cannot be pure numeric"@,
            TodoError::NotFound => "task not found"@,
            TodoError::StoreUnavailable => "task store unavailable"@,
        }
    }
}

} // verus!
