use todo_list::Task;
use todo_list::TodoApp;

fn listing(app: &TodoApp) -> Vec<(usize, bool, String)> {
    app.show_tasks()
}

#[test]
fn new_task_is_not_done() {
    let t = Task::new("water the plants");
    assert_eq!(t.description, "water the plants");
    assert!(!t.done);
}

#[test]
fn empty_description_is_accepted() {
    let t = Task::new("");
    assert_eq!(t.description, "");
    assert!(!t.done);
}

#[test]
fn new_store_is_empty() {
    let app = TodoApp::new();
    assert_eq!(app.len(), 0);
    assert!(listing(&app).is_empty());
}

#[test]
fn add_appends_at_the_end() {
    let mut app = TodoApp::new();
    app.add_new_task("first");
    assert_eq!(app.len(), 1);
    app.add_new_task("second");
    assert_eq!(app.len(), 2);
    let rows = listing(&app);
    assert_eq!(rows[0], (1, false, String::from("first")));
    assert_eq!(rows[1], (2, false, String::from("second")));
}

#[test]
fn mark_done_in_range_succeeds() {
    let mut app = TodoApp::new();
    app.add_new_task("alpha");
    app.add_new_task("beta");
    let r = app.mark_task_as_done(2);
    assert_eq!(r, Some(String::from("beta")));
    let rows = listing(&app);
    assert_eq!(rows[0], (1, false, String::from("alpha")));
    assert_eq!(rows[1], (2, true, String::from("beta")));
}

#[test]
fn mark_done_out_of_range_changes_nothing() {
    let mut app = TodoApp::new();
    app.add_new_task("alpha");
    let before = listing(&app);
    assert_eq!(app.mark_task_as_done(0), None);
    assert_eq!(app.mark_task_as_done(2), None);
    assert_eq!(app.mark_task_as_done(usize::MAX), None);
    assert_eq!(listing(&app), before);
}

#[test]
fn delete_in_range_returns_description() {
    let mut app = TodoApp::new();
    app.add_new_task("alpha");
    app.add_new_task("beta");
    let r = app.delete_task(1);
    assert_eq!(r, Some(String::from("alpha")));
    let rows = listing(&app);
    assert_eq!(rows, vec![(1, false, String::from("beta"))]);
}

#[test]
fn delete_out_of_range_changes_nothing() {
    let mut app = TodoApp::new();
    app.add_new_task("alpha");
    let before = listing(&app);
    assert_eq!(app.delete_task(0), None);
    assert_eq!(app.delete_task(2), None);
    assert_eq!(listing(&app), before);
}

#[test]
fn delete_renumbers_the_rest() {
    let mut app = TodoApp::new();
    app.add_new_task("A");
    app.add_new_task("B");
    app.add_new_task("C");
    let r = app.delete_task(2);
    assert_eq!(r, Some(String::from("B")));
    let rows = listing(&app);
    assert_eq!(rows.len(), 2);
    assert_eq!(rows[0], (1, false, String::from("A")));
    assert_eq!(rows[1], (2, false, String::from("C")));
}

#[test]
fn scenario_add_then_list() {
    let mut app = TodoApp::new();
    app.add_new_task("Buy milk");
    assert_eq!(listing(&app), vec![(1, false, String::from("Buy milk"))]);
}

#[test]
fn scenario_complete_then_list() {
    let mut app = TodoApp::new();
    app.add_new_task("Buy milk");
    let r = app.mark_task_as_done(1);
    assert_eq!(r, Some(String::from("Buy milk")));
    assert_eq!(listing(&app), vec![(1, true, String::from("Buy milk"))]);
    assert_eq!(app.mark_task_as_done(2), None);
    assert_eq!(listing(&app), vec![(1, true, String::from("Buy milk"))]);
}

#[test]
fn scenario_fresh_process_without_file() {
    let app = TodoApp::load_from_data(None);
    assert_eq!(app.len(), 0);
    assert!(listing(&app).is_empty());
}

#[test]
fn scenario_complete_zero_is_not_found() {
    let mut app = TodoApp::new();
    app.add_new_task("Buy milk");
    assert_eq!(app.mark_task_as_done(0), None);
    assert_eq!(listing(&app), vec![(1, false, String::from("Buy milk"))]);
}
