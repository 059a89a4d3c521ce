use todo_queue::models::{patched, ConfigPatch, Priority, ReminderConfig, Task, TaskPatch, TodoError};
use todo_queue::selector::{compute_stats, find_task_by_index_or_title, position_of_id};
use todo_queue::store::Database;

const NOW: i64 = 1_700_000_000;

fn task(title: &str, priority: Priority, created_at: i64, due_at: Option<i64>) -> Task {
    Task {
        id: 0,
        title: title.to_string(),
        description: None,
        priority,
        created_at,
        due_at,
        completed_at: None,
        tags: Vec::new(),
        project: None,
        estimated_minutes: None,
    }
}

#[test]
fn add_assigns_fresh_increasing_ids() {
    let mut db = Database::new();
    let a = db.add_task(&task("first", Priority::Medium, NOW, None));
    let b = db.add_task(&task("second", Priority::Medium, NOW, None));
    assert_eq!(a, 1);
    assert_eq!(b, 2);
    let got = db.get_task(a).unwrap();
    assert_eq!(got.title, "first");
    assert_eq!(got.id, a);
    assert!(db.get_task(99).is_none());
}

#[test]
fn complete_is_idempotent() {
    let mut db = Database::new();
    let id = db.add_task(&task("wash the car", Priority::Medium, NOW, None));
    assert!(db.complete_task(id, NOW + 10));
    assert_eq!(db.get_task(id).unwrap().completed_at, Some(NOW + 10));
    // The second completion reports false and does not touch the stamp.
    assert!(!db.complete_task(id, NOW + 99));
    assert_eq!(db.get_task(id).unwrap().completed_at, Some(NOW + 10));
    // Completing a task that never existed also reports false.
    assert!(!db.complete_task(42, NOW));
}

#[test]
fn list_orders_by_priority_then_creation() {
    let mut db = Database::new();
    let t0 = NOW - 100;
    let t1 = NOW;
    let t2 = NOW + 100;
    db.add_task(&task("A", Priority::High, t1, None));
    db.add_task(&task("B", Priority::Critical, t2, None));
    db.add_task(&task("C", Priority::High, t0, None));
    let listed = db.list_tasks(false);
    let titles: Vec<&str> = listed.iter().map(|t| t.title.as_str()).collect();
    assert_eq!(titles, vec!["B", "C", "A"]);
}

#[test]
fn next_lets_due_break_ties_within_a_priority_only() {
    let mut db = Database::new();
    let t0 = NOW - 100;
    let t1 = NOW;
    let t2 = NOW + 100;
    // B outranks A and C by priority even though it has no due instant;
    // between A and C the earlier due instant wins.
    let a = db.add_task(&task("A", Priority::High, t1, Some(NOW + 3600)));
    let b = db.add_task(&task("B", Priority::Critical, t2, None));
    let c = db.add_task(&task("C", Priority::High, t0, Some(NOW + 7200)));
    assert_eq!(db.get_next_task().unwrap().id, b);
    db.complete_task(b, NOW);
    assert_eq!(db.get_next_task().unwrap().id, a);
    db.complete_task(a, NOW);
    assert_eq!(db.get_next_task().unwrap().id, c);
    db.complete_task(c, NOW);
    assert!(db.get_next_task().is_none());
}

#[test]
fn next_sorts_missing_due_last_within_a_priority() {
    let mut db = Database::new();
    let bare = db.add_task(&task("bare", Priority::Medium, NOW - 50, None));
    let due = db.add_task(&task("due", Priority::Medium, NOW, Some(NOW + 3600)));
    let _ = bare;
    assert_eq!(db.get_next_task().unwrap().id, due);
}

#[test]
fn resolve_target_by_position_and_title() {
    let mut db = Database::new();
    db.add_task(&task("Pay rent", Priority::High, NOW, None));
    db.add_task(&task("Buy milk", Priority::Medium, NOW + 1, None));
    db.add_task(&task("Walk dog", Priority::Low, NOW + 2, None));
    let listed = db.list_tasks(false);
    assert_eq!(listed.len(), 3);
    // "2" picks the 2nd displayed task.
    let (pos, id) = find_task_by_index_or_title(&listed, "2").unwrap();
    assert_eq!(pos, 1);
    assert_eq!(id, listed[1].id);
    // A title matches ignoring ASCII case.
    let (pos, id) = find_task_by_index_or_title(&listed, "buy MILK").unwrap();
    assert_eq!(id, listed[pos].id);
    assert_eq!(listed[pos].title, "Buy milk");
    // Out-of-range positions and unknown titles resolve to nothing.
    assert!(find_task_by_index_or_title(&listed, "99").is_none());
    assert!(find_task_by_index_or_title(&listed, "0").is_none());
    assert!(find_task_by_index_or_title(&listed, "no such task").is_none());
}

#[test]
fn add_checked_rejects_numeric_and_duplicate_titles() {
    let mut db = Database::new();
    assert_eq!(
        db.add_task_checked(&task("12345", Priority::Medium, NOW, None)),
        Err(TodoError::NumericTitleRejected)
    );
    assert!(db
        .add_task_checked(&task("Buy milk", Priority::Medium, NOW, None))
        .is_ok());
    assert_eq!(
        db.add_task_checked(&task("BUY MILK", Priority::Low, NOW, None)),
        Err(TodoError::DuplicateTitle)
    );
    // A completed task no longer blocks its title.
    let listed = db.list_tasks(false);
    db.complete_task(listed[0].id, NOW);
    assert!(db
        .add_task_checked(&task("buy milk", Priority::Low, NOW, None))
        .is_ok());
}

#[test]
fn delete_clear_and_reset() {
    let mut db = Database::new();
    let a = db.add_task(&task("a", Priority::Low, NOW, None));
    let b = db.add_task(&task("b", Priority::Low, NOW + 1, None));
    let c = db.add_task(&task("c", Priority::Low, NOW + 2, None));
    assert!(db.delete_task(a));
    assert!(!db.delete_task(a));
    db.complete_task(b, NOW);
    assert_eq!(db.clear_completed(), 1);
    assert!(db.get_task(b).is_none());
    assert!(db.get_task(c).is_some());
    assert_eq!(db.reset_all(), 1);
    assert!(db.list_tasks(true).is_empty());
    // Ids are not reused after deletions.
    let d = db.add_task(&task("d", Priority::Low, NOW, None));
    assert_eq!(d, 4);
}

#[test]
fn update_overwrites_fields_but_not_lifecycle() {
    let mut db = Database::new();
    let id = db.add_task(&task("draft", Priority::Low, NOW, None));
    db.complete_task(id, NOW + 5);
    let patch = Task {
        id: 0,
        title: "final draft".to_string(),
        description: Some("polished".to_string()),
        priority: Priority::High,
        created_at: 12345,       // must be ignored
        due_at: Some(NOW + 3600),
        completed_at: None,      // must be ignored
        tags: vec!["writing".to_string()],
        project: Some("book".to_string()),
        estimated_minutes: Some(30),
    };
    assert!(db.update_task(id, &patch));
    let got = db.get_task(id).unwrap();
    assert_eq!(got.id, id);
    assert_eq!(got.title, "final draft");
    assert_eq!(got.description.as_deref(), Some("polished"));
    assert_eq!(got.priority, Priority::High);
    assert_eq!(got.created_at, NOW);
    assert_eq!(got.due_at, Some(NOW + 3600));
    assert_eq!(got.completed_at, Some(NOW + 5));
    assert_eq!(got.tags, vec!["writing".to_string()]);
    assert_eq!(got.project.as_deref(), Some("book"));
    assert_eq!(got.estimated_minutes, Some(30));
    assert!(!db.update_task(999, &patch));
}

#[test]
fn patch_merges_only_given_fields() {
    let mut base = task("draft", Priority::Low, NOW, Some(NOW + 100));
    base.id = 7;
    base.completed_at = Some(NOW + 1);
    base.tags = vec!["old".to_string()];
    let patch = TaskPatch {
        title: Some("redraft".to_string()),
        description: None,
        priority: Some(Priority::Critical),
        due_at: Some(None), // clears the due instant
        project: Some("book".to_string()),
        tags: None,
        estimated_minutes: Some(15),
    };
    let merged = patched(&base, &patch);
    assert_eq!(merged.id, 7);
    assert_eq!(merged.title, "redraft");
    assert_eq!(merged.description, None);
    assert_eq!(merged.priority, Priority::Critical);
    assert_eq!(merged.created_at, NOW);
    assert_eq!(merged.due_at, None);
    assert_eq!(merged.completed_at, Some(NOW + 1));
    assert_eq!(merged.tags, vec!["old".to_string()]);
    assert_eq!(merged.project.as_deref(), Some("book"));
    assert_eq!(merged.estimated_minutes, Some(15));
}

#[test]
fn from_rows_accepts_sound_rows_only() {
    let mut a = task("a", Priority::Low, NOW, None);
    a.id = 1;
    let mut b = task("b", Priority::Low, NOW, None);
    b.id = 3;
    let db = Database::from_rows(vec![a.clone(), b.clone()], 4, None).unwrap();
    assert_eq!(db.list_tasks(true).len(), 2);

    let mut dup = task("dup", Priority::Low, NOW, None);
    dup.id = 1;
    assert_eq!(
        Database::from_rows(vec![a.clone(), dup], 4, None).err(),
        Some(TodoError::StoreUnavailable)
    );
    assert_eq!(
        Database::from_rows(vec![a.clone(), b.clone()], 3, None).err(),
        Some(TodoError::StoreUnavailable)
    );
    let mut zero = task("zero", Priority::Low, NOW, None);
    zero.id = 0;
    assert_eq!(
        Database::from_rows(vec![zero], 4, None).err(),
        Some(TodoError::StoreUnavailable)
    );
}

#[test]
fn config_defaults_until_saved() {
    let mut db = Database::new();
    let cfg = db.get_config();
    assert_eq!(cfg, ReminderConfig::default());
    assert!(cfg.enabled);
    assert_eq!(cfg.interval_minutes, 180);
    assert!(cfg.use_notify_send);
    assert!(!cfg.use_wall);
    assert_eq!(cfg.wall_quiet_start_hour, 18);
    assert_eq!(cfg.wall_quiet_end_hour, 9);
    assert!(!cfg.start_from_quiet_end);

    let mut changed = cfg;
    changed.use_wall = true;
    changed.interval_minutes = 60;
    db.save_config(&changed);
    assert_eq!(db.get_config(), changed);
}

#[test]
fn config_patch_clamps_hours_and_tracks_change() {
    let cfg = ReminderConfig::default();
    let empty = ConfigPatch {
        enabled: None,
        interval_minutes: None,
        use_notify_send: None,
        use_wall: None,
        wall_quiet_start_hour: None,
        wall_quiet_end_hour: None,
        start_from_quiet_end: None,
    };
    let (same, changed) = cfg.apply_patch(&empty);
    assert_eq!(same, cfg);
    assert!(!changed);

    let patch = ConfigPatch {
        enabled: Some(false),
        interval_minutes: Some(90),
        use_notify_send: None,
        use_wall: Some(true),
        wall_quiet_start_hour: Some(25),
        wall_quiet_end_hour: Some(7),
        start_from_quiet_end: None,
    };
    let (updated, changed) = cfg.apply_patch(&patch);
    assert!(changed);
    assert!(!updated.enabled);
    assert_eq!(updated.interval_minutes, 90);
    assert!(updated.use_notify_send);
    assert!(updated.use_wall);
    assert_eq!(updated.wall_quiet_start_hour, 23);
    assert_eq!(updated.wall_quiet_end_hour, 7);
}

#[test]
fn end_to_end_add_next_done_stats() {
    let mut db = Database::new();
    let due = todo_queue::timeparse::parse_due_time("2h", NOW).unwrap();
    assert_eq!(due, Some(NOW + 7200));
    let id = db
        .add_task_checked(&Task {
            id: 0,
            title: "Buy milk".to_string(),
            description: None,
            priority: todo_queue::timeparse::parse_priority("high"),
            created_at: NOW,
            due_at: due,
            completed_at: None,
            tags: Vec::new(),
            project: None,
            estimated_minutes: None,
        })
        .unwrap();
    assert_eq!(position_of_id(&db.list_tasks(false), id), Some(1));

    let pending = db.list_tasks(false);
    assert_eq!(pending.len(), 1);
    let next = db.get_next_task().unwrap();
    assert_eq!(next.title, "Buy milk");
    assert_eq!(next.priority, Priority::High);

    // Complete by position "1": once it succeeds, a second time it cannot.
    let (_, target) = find_task_by_index_or_title(&pending, "1").unwrap();
    assert!(db.complete_task(target, NOW + 10));
    assert!(!db.complete_task(target, NOW + 20));

    let all = db.list_tasks(true);
    let stats = compute_stats(&all, NOW + 30);
    assert_eq!(stats.total, 1);
    assert_eq!(stats.completed, 1);
    assert_eq!(stats.pending, 0);
    assert_eq!(stats.overdue, 0);
}
