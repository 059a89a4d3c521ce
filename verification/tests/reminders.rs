use todo_queue::models::{Priority, ReminderConfig, Task, TodoError};
use todo_queue::reminder::{
    check_reminders, delivery_plan, DueMark, ReminderHeader, ReminderOutcome,
};
use todo_queue::selector::{compute_stats, due_soon};

const NOW: i64 = 1_700_000_000;

fn task(title: &str, due_at: Option<i64>, completed_at: Option<i64>) -> Task {
    Task {
        id: 0,
        title: title.to_string(),
        description: None,
        priority: Priority::Medium,
        created_at: NOW - 1000,
        due_at,
        completed_at,
        tags: Vec::new(),
        project: None,
        estimated_minutes: None,
    }
}

#[test]
fn overdue_needs_past_due_and_no_completion() {
    assert!(task("t", Some(NOW - 1), None).is_overdue(NOW));
    assert!(!task("t", Some(NOW + 1), None).is_overdue(NOW));
    assert!(!task("t", Some(NOW), None).is_overdue(NOW));
    assert!(!task("t", None, None).is_overdue(NOW));
    // A completed task is never overdue, however far past its due instant.
    assert!(!task("t", Some(NOW - 999_999), Some(NOW)).is_overdue(NOW));
}

#[test]
fn due_soon_window_is_future_within_24_hours() {
    assert!(!due_soon(&task("t", Some(NOW), None), NOW));
    assert!(due_soon(&task("t", Some(NOW + 1), None), NOW));
    assert!(due_soon(&task("t", Some(NOW + 86400), None), NOW));
    assert!(!due_soon(&task("t", Some(NOW + 86401), None), NOW));
    assert!(!due_soon(&task("t", Some(NOW - 1), None), NOW));
    assert!(!due_soon(&task("t", None, None), NOW));
}

#[test]
fn quiet_hours_wrap_past_midnight() {
    let mut cfg = ReminderConfig::default();
    cfg.wall_quiet_start_hour = 18;
    cfg.wall_quiet_end_hour = 9;
    // The wrapped window 18:00 -> 09:00 suppresses hour >= 18 or hour < 9.
    assert!(cfg.is_wall_quiet_hours(20));
    assert!(!cfg.is_wall_quiet_hours(10));
    assert!(!cfg.is_wall_quiet_hours(9));
    assert!(cfg.is_wall_quiet_hours(18));
    assert!(cfg.is_wall_quiet_hours(0));
    assert!(cfg.is_wall_quiet_hours(8));
    assert!(!cfg.is_wall_quiet_hours(17));
}

#[test]
fn quiet_hours_plain_window() {
    let mut cfg = ReminderConfig::default();
    cfg.wall_quiet_start_hour = 9;
    cfg.wall_quiet_end_hour = 18;
    assert!(cfg.is_wall_quiet_hours(9));
    assert!(cfg.is_wall_quiet_hours(10));
    assert!(!cfg.is_wall_quiet_hours(18));
    assert!(!cfg.is_wall_quiet_hours(8));
}

#[test]
fn reminder_disabled_produces_nothing() {
    let mut cfg = ReminderConfig::default();
    cfg.enabled = false;
    let pending = vec![task("t", None, None)];
    assert!(matches!(
        check_reminders(&cfg, &pending, NOW),
        ReminderOutcome::Disabled
    ));
}

#[test]
fn reminder_with_no_pending_tasks_produces_nothing() {
    let cfg = ReminderConfig::default();
    assert!(matches!(
        check_reminders(&cfg, &Vec::new(), NOW),
        ReminderOutcome::NothingPending
    ));
}

#[test]
fn reminder_single_task_names_it_in_the_header() {
    let cfg = ReminderConfig::default();
    let pending = vec![task("water the plants", None, None)];
    match check_reminders(&cfg, &pending, NOW) {
        ReminderOutcome::Remind(msg) => {
            match msg.header {
                ReminderHeader::SingleTask(t) => assert_eq!(t, "water the plants"),
                ReminderHeader::PendingCount(_) => panic!("expected the single task's title"),
            }
            assert_eq!(msg.lines.len(), 1);
            assert_eq!(msg.lines[0].index, 1);
            assert_eq!(msg.lines[0].mark, DueMark::Plain);
        }
        _ => panic!("expected a reminder"),
    }
}

#[test]
fn reminder_annotates_each_line() {
    let cfg = ReminderConfig::default();
    let pending = vec![
        task("late", Some(NOW - 100), None),
        task("soon", Some(NOW + 5 * 3600 + 30), None),
        task("someday", None, None),
    ];
    match check_reminders(&cfg, &pending, NOW) {
        ReminderOutcome::Remind(msg) => {
            match msg.header {
                ReminderHeader::PendingCount(c) => assert_eq!(c, 3),
                ReminderHeader::SingleTask(_) => panic!("expected a count header"),
            }
            assert_eq!(msg.lines.len(), 3);
            assert_eq!(msg.lines[0].index, 1);
            assert_eq!(msg.lines[0].title, "late");
            assert_eq!(msg.lines[0].mark, DueMark::Overdue);
            assert_eq!(msg.lines[1].index, 2);
            assert_eq!(msg.lines[1].mark, DueMark::DueInHours(5));
            assert_eq!(msg.lines[2].index, 3);
            assert_eq!(msg.lines[2].mark, DueMark::Plain);
        }
        _ => panic!("expected a reminder"),
    }
}

#[test]
fn delivery_respects_toggles_and_quiet_window() {
    let mut cfg = ReminderConfig::default();
    cfg.enabled = true;
    cfg.use_notify_send = true;
    cfg.use_wall = true;
    cfg.wall_quiet_start_hour = 18;
    cfg.wall_quiet_end_hour = 9;

    // Quiet hour: the wall stays silent, the notification still fires.
    let plan = delivery_plan(&cfg, 20);
    assert!(plan.notify);
    assert!(!plan.wall);

    // Open hour: both fire.
    let plan = delivery_plan(&cfg, 12);
    assert!(plan.notify);
    assert!(plan.wall);

    // Disabled: neither fires, whatever the hour.
    cfg.enabled = false;
    let plan = delivery_plan(&cfg, 12);
    assert!(!plan.notify);
    assert!(!plan.wall);
}

#[test]
fn error_messages_name_each_failure() {
    let variants = [
        TodoError::InvalidTimeFormat,
        TodoError::InvalidIntervalFormat,
        TodoError::DuplicateTitle,
        TodoError::NumericTitleRejected,
        TodoError::NotFound,
        TodoError::StoreUnavailable,
    ];
    for (i, a) in variants.iter().enumerate() {
        assert!(!a.as_str().is_empty());
        for b in variants.iter().skip(i + 1) {
            assert_ne!(a.as_str(), b.as_str());
        }
    }
}

#[test]
fn stats_count_overdue_among_pending_only() {
    let tasks = vec![
        task("late", Some(NOW - 10), None),
        task("done late", Some(NOW - 10), Some(NOW - 5)),
        task("fresh", None, None),
    ];
    let stats = compute_stats(&tasks, NOW);
    assert_eq!(stats.total, 3);
    assert_eq!(stats.completed, 1);
    assert_eq!(stats.pending, 2);
    assert_eq!(stats.overdue, 1);
}
