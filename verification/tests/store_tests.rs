use small_worklog::store::{Store, StoreError};
use small_worklog::task::Task;

fn mem_store() -> Store {
    Store::new(":memory:").unwrap()
}

fn task(id: &str, description: &str, created_at: u64) -> Task {
    Task::from_parts(String::from(id), String::from(description), false, created_at, 0)
}

#[test]
fn open_is_idempotent_and_starts_empty() {
    let s = mem_store();
    assert_eq!(s.get_all_tasks().unwrap().len(), 0);
}

#[test]
fn add_then_get_returns_equal_record() {
    let mut s = mem_store();
    let t = task("id-1", "write report", 1000000000);
    s.add_task(&t).unwrap();
    let back = s.get_task("id-1").unwrap().unwrap();
    assert_eq!(back.id, t.id);
    assert_eq!(back.description, t.description);
    assert_eq!(back.completed, t.completed);
    assert_eq!(back.created_at, t.created_at);
    assert_eq!(back.created_at_date, t.created_at_date);
    assert_eq!(back.completed_at, t.completed_at);
}

#[test]
fn round_trip_preserves_odd_text() {
    let mut s = mem_store();
    let t = Task::from_parts(
        String::from("id-2"),
        String::from("trailing spaces   \n and \"quotes\" and \u{00e9}\u{4e16}"),
        true,
        1234567890,
        1234567999,
    );
    s.add_task(&t).unwrap();
    let back = s.get_task("id-2").unwrap().unwrap();
    assert_eq!(back.description, t.description);
    assert_eq!(back.completed_at, 1234567999);
    assert!(back.completed);
}

#[test]
fn duplicate_id_is_refused() {
    let mut s = mem_store();
    let t = task("dup", "a", 1000);
    s.add_task(&t).unwrap();
    let again = task("dup", "b", 2000);
    let e = s.add_task(&again).unwrap_err();
    assert!(matches!(e, StoreError::DuplicateId));
    let back = s.get_task("dup").unwrap().unwrap();
    assert_eq!(back.description, "a");
}

#[test]
fn get_absent_is_none() {
    let s = mem_store();
    assert!(s.get_task("nope").unwrap().is_none());
}

#[test]
fn update_overwrites_mutable_fields() {
    let mut s = mem_store();
    let mut t = task("u1", "before", 1000000000);
    s.add_task(&t).unwrap();
    t.description = String::from("after");
    t.set_completed(true, 777);
    s.update_task(&t).unwrap();
    let back = s.get_task("u1").unwrap().unwrap();
    assert_eq!(back.description, "after");
    assert!(back.completed);
    assert_eq!(back.completed_at, 777);
}

#[test]
fn update_of_absent_id_is_silent_noop() {
    let mut s = mem_store();
    s.add_task(&task("present", "a", 1000)).unwrap();
    let ghost = task("absent", "b", 2000);
    s.update_task(&ghost).unwrap();
    let all = s.get_all_tasks().unwrap();
    assert_eq!(all.len(), 1);
    assert!(s.get_task("absent").unwrap().is_none());
}

#[test]
fn delete_removes_and_absent_delete_is_noop() {
    let mut s = mem_store();
    s.add_task(&task("d1", "a", 1000)).unwrap();
    s.delete_task_by_id("nope").unwrap();
    assert_eq!(s.get_all_tasks().unwrap().len(), 1);
    s.delete_task_by_id("d1").unwrap();
    assert_eq!(s.get_all_tasks().unwrap().len(), 0);
}

#[test]
fn interleaved_adds_and_deletes_count() {
    let mut s = mem_store();
    s.add_task(&task("a", "1", 1000)).unwrap();
    s.add_task(&task("b", "2", 1001)).unwrap();
    s.delete_task_by_id("a").unwrap();
    s.add_task(&task("c", "3", 1002)).unwrap();
    s.add_task(&task("d", "4", 1003)).unwrap();
    s.delete_task_by_id("c").unwrap();
    // four inserts, two deletes: exactly two records, no phantoms
    let all = s.get_all_tasks().unwrap();
    assert_eq!(all.len(), 2);
    let mut ids: Vec<String> = all.iter().map(|t| t.id.clone()).collect();
    ids.sort();
    assert_eq!(ids, vec![String::from("b"), String::from("d")]);
}

#[test]
fn get_all_returns_each_record_once() {
    let mut s = mem_store();
    for i in 0..10u64 {
        s.add_task(&task(&format!("id-{}", i), "x", 1000 + i)).unwrap();
    }
    let all = s.get_all_tasks().unwrap();
    assert_eq!(all.len(), 10);
    let mut ids: Vec<String> = all.iter().map(|t| t.id.clone()).collect();
    ids.sort();
    ids.dedup();
    assert_eq!(ids.len(), 10);
}

#[test]
fn get_all_is_a_snapshot() {
    let mut s = mem_store();
    s.add_task(&task("s1", "a", 1000)).unwrap();
    let snapshot = s.get_all_tasks().unwrap();
    s.add_task(&task("s2", "b", 1001)).unwrap();
    s.delete_task_by_id("s1").unwrap();
    assert_eq!(snapshot.len(), 1);
    assert_eq!(snapshot[0].id, "s1");
}

#[test]
fn full_lifecycle_scenario() {
    let mut s = mem_store();
    let t0 = 1000000000u64;
    let t = Task::from_parts(String::from("life"), String::from("write report"), false, t0, 0);
    s.add_task(&t).unwrap();

    let all = s.get_all_tasks().unwrap();
    assert_eq!(all.len(), 1);
    assert_eq!(all[0].completed_at, 0);

    let t2 = 1000000500u64;
    let mut cur = s.get_task("life").unwrap().unwrap();
    cur.set_completed(true, t2);
    s.update_task(&cur).unwrap();
    let back = s.get_task("life").unwrap().unwrap();
    assert!(back.completed);
    assert_eq!(back.completed_at, t2);

    let mut cur = back;
    cur.set_completed(false, 1000000900);
    s.update_task(&cur).unwrap();
    let back = s.get_task("life").unwrap().unwrap();
    assert!(!back.completed);
    assert_eq!(back.completed_at, 0);

    s.delete_task_by_id("life").unwrap();
    assert_eq!(s.get_all_tasks().unwrap().len(), 0);
}
