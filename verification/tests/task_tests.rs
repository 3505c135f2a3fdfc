use small_worklog::task::{generate_uuid, Task, MAX_TIMESTAMP};

#[test]
fn new_task_has_defaults() {
    let t = Task::new(String::from("write report"));
    assert_eq!(t.description, "write report");
    assert!(!t.completed);
    assert_eq!(t.completed_at, 0);
    assert!(t.id.len() >= 36);
    assert!(t.created_at <= MAX_TIMESTAMP);
    assert_eq!(t.created_at_date, t.created_at_date());
}

#[test]
fn trailing_whitespace_is_preserved() {
    let t = Task::new(String::from("note  \n"));
    assert_eq!(t.description, "note  \n");
}

#[test]
fn uuid_shape() {
    let id = generate_uuid();
    assert!(id.len() >= 36 && id.len() <= 68);
    assert_eq!(id.chars().filter(|c| *c == '-').count(), 4);
    assert!(id.chars().all(|c| c == '-' || c.is_ascii_hexdigit()));
    assert!(id.chars().all(|c| !c.is_ascii_uppercase()));
}

#[test]
fn uuids_are_distinct() {
    let a = generate_uuid();
    let b = generate_uuid();
    assert_ne!(a, b);
}

#[test]
fn toggle_stamps_and_resets() {
    let mut t = Task::from_parts(
        String::from("i"),
        String::from("d"),
        false,
        1000,
        0,
    );
    t.set_completed(true, 5000);
    assert!(t.completed);
    assert_eq!(t.completed_at, 5000);
    t.set_completed(false, 6000);
    assert!(!t.completed);
    assert_eq!(t.completed_at, 0);
}

#[test]
fn date_of_epoch_start() {
    let t = Task::from_parts(String::from("i"), String::from("d"), false, 0, 0);
    assert_eq!(t.created_at_date, "1970-01-01");
}

#[test]
fn date_of_known_timestamps() {
    let a = Task::from_parts(String::from("i"), String::from("d"), false, 1000000000, 0);
    assert_eq!(a.created_at_date, "2001-09-09");
    let b = Task::from_parts(String::from("i"), String::from("d"), false, 1234567890, 0);
    assert_eq!(b.created_at_date, "2009-02-13");
    let c = Task::from_parts(String::from("i"), String::from("d"), false, MAX_TIMESTAMP, 0);
    assert_eq!(c.created_at_date, "9999-12-31");
}

#[test]
fn is_on_date_matches_derived_date() {
    let t = Task::from_parts(String::from("i"), String::from("d"), false, 1000000000, 0);
    assert!(t.is_on_date("2001-09-09"));
    assert!(!t.is_on_date("2001-09-10"));
}

#[test]
fn fresh_task_is_today() {
    let t = Task::new(String::from("d"));
    assert!(t.is_today());
}

#[test]
fn old_task_is_not_today() {
    let t = Task::from_parts(String::from("i"), String::from("d"), false, 1000000000, 0);
    assert!(!t.is_today());
}

#[test]
fn clone_keeps_every_field() {
    let t = Task::from_parts(String::from("i"), String::from("d"), true, 1000, 7);
    let c = t.clone();
    assert_eq!(c.id, t.id);
    assert_eq!(c.description, t.description);
    assert_eq!(c.completed, t.completed);
    assert_eq!(c.created_at, t.created_at);
    assert_eq!(c.created_at_date, t.created_at_date);
    assert_eq!(c.completed_at, t.completed_at);
}
