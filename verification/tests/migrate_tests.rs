use small_worklog::migrate::{import_legacy, should_migrate, MigrateError};
use small_worklog::store::{Store, StoreError};

fn mem_store() -> Store {
    Store::new(":memory:").unwrap()
}

#[test]
fn guard_runs_only_without_database() {
    assert!(should_migrate(false, true));
    assert!(!should_migrate(true, true));
    assert!(!should_migrate(true, false));
    assert!(!should_migrate(false, false));
}

#[test]
fn import_backfills_generated_ids_and_sentinel() {
    let mut s = mem_store();
    let text = r#"[
        {"description":"first","completed":false,"created_at":1000000000},
        {"description":"second","completed":true,"created_at":1000086400}
    ]"#;
    let n = import_legacy(&mut s, text).unwrap();
    assert_eq!(n, 2);
    let all = s.get_all_tasks().unwrap();
    assert_eq!(all.len(), 2);
    for t in &all {
        assert!(t.id.chars().count() >= 36);
        assert_eq!(t.completed_at, 0);
    }
    assert_ne!(all[0].id, all[1].id);
    let mut descriptions: Vec<String> = all.iter().map(|t| t.description.clone()).collect();
    descriptions.sort();
    assert_eq!(descriptions, vec![String::from("first"), String::from("second")]);
}

#[test]
fn import_keeps_given_ids_and_stamps() {
    let mut s = mem_store();
    let text = r#"[{"id":"keep-me","description":"a","completed":true,"created_at":1000000000,"completed_at":1000000500}]"#;
    import_legacy(&mut s, text).unwrap();
    let t = s.get_task("keep-me").unwrap().unwrap();
    assert!(t.completed);
    assert_eq!(t.completed_at, 1000000500);
}

#[test]
fn import_recomputes_the_cached_date() {
    let mut s = mem_store();
    let text = r#"[{"id":"d","description":"a","completed":false,"created_at":1000000000,"created_at_date":"1999-12-31"}]"#;
    import_legacy(&mut s, text).unwrap();
    let t = s.get_task("d").unwrap().unwrap();
    assert_eq!(t.created_at_date, "2001-09-09");
}

#[test]
fn import_of_blank_text_leaves_store_empty() {
    let mut s = mem_store();
    assert_eq!(import_legacy(&mut s, "").unwrap(), 0);
    assert_eq!(import_legacy(&mut s, "[]").unwrap(), 0);
    assert_eq!(s.get_all_tasks().unwrap().len(), 0);
}

#[test]
fn corrupt_text_imports_nothing() {
    let mut s = mem_store();
    let e = import_legacy(&mut s, "not a task list").unwrap_err();
    assert!(matches!(e, MigrateError::CorruptLegacyData));
    assert_eq!(s.get_all_tasks().unwrap().len(), 0);
}

#[test]
fn corrupt_text_leaves_existing_records_alone() {
    let mut s = mem_store();
    import_legacy(&mut s, r#"[{"id":"x","description":"a","completed":false,"created_at":1}]"#)
        .unwrap();
    let e = import_legacy(&mut s, "[{").unwrap_err();
    assert!(matches!(e, MigrateError::CorruptLegacyData));
    assert_eq!(s.get_all_tasks().unwrap().len(), 1);
}

#[test]
fn second_run_is_blocked_by_the_guard() {
    let text = r#"[
        {"description":"one","completed":false,"created_at":10},
        {"description":"two","completed":false,"created_at":20}
    ]"#;
    let mut s = mem_store();

    // first start: no database yet, legacy file present
    let mut db_exists = false;
    if should_migrate(db_exists, true) {
        import_legacy(&mut s, text).unwrap();
        db_exists = true;
    }
    assert_eq!(s.get_all_tasks().unwrap().len(), 2);

    // second start: the database now exists, so nothing runs again
    if should_migrate(db_exists, true) {
        import_legacy(&mut s, text).unwrap();
    }
    assert_eq!(s.get_all_tasks().unwrap().len(), 2);
}

#[test]
fn duplicate_id_in_legacy_aborts_the_batch() {
    let mut s = mem_store();
    let text = r#"[
        {"id":"same","description":"a","completed":false,"created_at":1},
        {"id":"same","description":"b","completed":false,"created_at":2},
        {"id":"later","description":"c","completed":false,"created_at":3}
    ]"#;
    let e = import_legacy(&mut s, text).unwrap_err();
    assert!(matches!(e, MigrateError::Store(StoreError::DuplicateId)));
    // the batch stopped at the failure: the first record stays, the rest never arrive
    let all = s.get_all_tasks().unwrap();
    assert_eq!(all.len(), 1);
    assert_eq!(all[0].description, "a");
    assert!(s.get_task("later").unwrap().is_none());
}

#[test]
fn completed_without_stamp_keeps_flag_and_sentinel() {
    let mut s = mem_store();
    let text = r#"[{"id":"f","description":"a","completed":true,"created_at":1}]"#;
    import_legacy(&mut s, text).unwrap();
    let t = s.get_task("f").unwrap().unwrap();
    assert!(t.completed);
    assert_eq!(t.completed_at, 0);
}
