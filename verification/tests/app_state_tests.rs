use small_worklog::app_state::{history_groups, today_string, visible_tasks, AppFrame, MyApp};
use small_worklog::store::Store;
use small_worklog::task::Task;

fn mem_store() -> Store {
    Store::new(":memory:").unwrap()
}

fn task(id: &str, description: &str, completed: bool, created_at: u64) -> Task {
    let mut t = Task::from_parts(String::from(id), String::from(description), false, created_at, 0);
    if completed {
        t.set_completed(true, created_at + 1);
    }
    t
}

#[test]
fn app_frame_starts_hidden() {
    let f = AppFrame::new(mem_store());
    assert!(!f.show_deferred_history);
}

#[test]
fn submit_stores_the_typed_text_and_clears_the_box() {
    let mut app = MyApp::new(mem_store(), AppFrame::new(mem_store()));
    app.new_task = String::from("buy milk");
    let t = app.submit_new_task().unwrap();
    assert_eq!(t.description, "buy milk");
    assert_eq!(app.new_task, "");
    let back = app.store.get_task(&t.id).unwrap().unwrap();
    assert_eq!(back.description, "buy milk");
}

#[test]
fn toggling_through_the_app_persists() {
    let mut app = MyApp::new(mem_store(), AppFrame::new(mem_store()));
    app.new_task = String::from("call home");
    let mut t = app.submit_new_task().unwrap();

    app.set_task_completed(&mut t, true).unwrap();
    assert!(t.completed);
    assert!(t.completed_at >= 1);
    let back = app.store.get_task(&t.id).unwrap().unwrap();
    assert!(back.completed);
    assert_eq!(back.completed_at, t.completed_at);

    app.set_task_completed(&mut t, false).unwrap();
    assert_eq!(t.completed_at, 0);
    let back = app.store.get_task(&t.id).unwrap().unwrap();
    assert!(!back.completed);
    assert_eq!(back.completed_at, 0);
}

#[test]
fn daily_list_keeps_unfinished_and_todays_tasks() {
    let tasks = vec![
        task("a", "open old", false, 1000000000),
        task("b", "done old", true, 1000000000),
        task("c", "done today", true, 1700000000),
        task("d", "open today", false, 1700000000),
    ];
    let today = tasks[2].created_at_date.clone();
    let visible = visible_tasks(&tasks, &today);
    let ids: Vec<&str> = visible.iter().map(|t| t.id.as_str()).collect();
    assert_eq!(ids, vec!["a", "c", "d"]);
}

#[test]
fn today_string_matches_a_fresh_task() {
    let t = Task::new(String::from("d"));
    assert_eq!(today_string(), t.created_at_date);
}

#[test]
fn history_groups_by_date_newest_first() {
    let day1 = 1000000000u64; // 2001-09-09
    let day2 = day1 + 86400; // 2001-09-10
    let day3 = day2 + 86400; // 2001-09-11
    let tasks = vec![
        task("a", "first of day2", false, day2),
        task("b", "only day1", true, day1),
        task("c", "only day3", false, day3),
        task("d", "second of day2", true, day2 + 30),
    ];
    let groups = history_groups(&tasks);
    assert_eq!(groups.len(), 3);
    assert_eq!(groups[0].0, "2001-09-11");
    assert_eq!(groups[1].0, "2001-09-10");
    assert_eq!(groups[2].0, "2001-09-09");
    let day2_ids: Vec<&str> = groups[1].1.iter().map(|t| t.id.as_str()).collect();
    assert_eq!(day2_ids, vec!["a", "d"]);
    assert_eq!(groups[0].1.len(), 1);
    assert_eq!(groups[2].1.len(), 1);
}

#[test]
fn history_of_no_tasks_is_empty() {
    let groups = history_groups(&Vec::new());
    assert_eq!(groups.len(), 0);
}
