use todo_list::TodoApp;

fn store_of(tasks: &[(&str, bool)]) -> TodoApp {
    let mut app = TodoApp::new();
    for (d, done) in tasks {
        app.add_new_task(d);
        if *done {
            let r = app.mark_task_as_done(app.len());
            assert!(r.is_some());
        }
    }
    app
}

fn rows_of(app: &TodoApp) -> Vec<(usize, bool, String)> {
    app.show_tasks()
}

#[test]
fn empty_store_serializes_to_empty_array() {
    let app = TodoApp::new();
    assert_eq!(app.save_to_string(), "{\n  \"tasks\": []\n}");
}

#[test]
fn one_task_serializes_to_pretty_json() {
    let app = store_of(&[("Buy milk", false)]);
    let expected = "{\n  \"tasks\": [\n    {\n      \"description\": \"Buy milk\",\n      \"done\": false\n    }\n  ]\n}";
    assert_eq!(app.save_to_string(), expected);
}

#[test]
fn two_tasks_serialize_with_comma() {
    let app = store_of(&[("A", true), ("B", false)]);
    let expected = "{\n  \"tasks\": [\n    {\n      \"description\": \"A\",\n      \"done\": true\n    },\n    {\n      \"description\": \"B\",\n      \"done\": false\n    }\n  ]\n}";
    assert_eq!(app.save_to_string(), expected);
}

#[test]
fn special_characters_are_escaped() {
    let app = store_of(&[("a\"b\\c\nd\u{1}e", false)]);
    let expected = "{\n  \"tasks\": [\n    {\n      \"description\": \"a\\\"b\\\\c\\u000ad\\u0001e\",\n      \"done\": false\n    }\n  ]\n}";
    assert_eq!(app.save_to_string(), expected);
}

#[test]
fn round_trip_keeps_order_descriptions_and_flags() {
    let app = store_of(&[
        ("Buy milk", false),
        ("quote \" and backslash \\", true),
        ("line\nbreak and tab\there", false),
        ("", true),
        ("caf\u{e9} \u{2713}", false),
    ]);
    let text = app.save_to_string();
    let reloaded = TodoApp::load_from_data(Some(&text));
    assert_eq!(rows_of(&reloaded), rows_of(&app));
}

#[test]
fn round_trip_of_empty_store() {
    let app = TodoApp::new();
    let text = app.save_to_string();
    let reloaded = TodoApp::load_from_data(Some(&text));
    assert_eq!(reloaded.len(), 0);
}

#[test]
fn load_missing_file_yields_empty_store() {
    let app = TodoApp::load_from_data(None);
    assert_eq!(app.len(), 0);
}

#[test]
fn load_empty_file_yields_empty_store() {
    let app = TodoApp::load_from_data(Some(""));
    assert_eq!(app.len(), 0);
}

#[test]
fn load_invalid_text_yields_empty_store() {
    for bad in [
        "not json at all",
        "{",
        "{\n  \"tasks\": [",
        "{\n  \"tasks\": [\n    {\n      \"description\": \"x\",\n      \"done\": maybe\n    }\n  ]\n}",
        "{\"tasks\":[]}",
        "[]",
    ] {
        let app = TodoApp::load_from_data(Some(bad));
        assert_eq!(app.len(), 0, "text {:?} must be rejected", bad);
    }
}

#[test]
fn load_reads_the_canonical_layout() {
    let text = "{\n  \"tasks\": [\n    {\n      \"description\": \"A \\\"quoted\\\" one\",\n      \"done\": true\n    },\n    {\n      \"description\": \"plain\",\n      \"done\": false\n    }\n  ]\n}";
    let app = TodoApp::load_from_data(Some(text));
    let rows = rows_of(&app);
    assert_eq!(rows.len(), 2);
    assert_eq!(rows[0], (1, true, String::from("A \"quoted\" one")));
    assert_eq!(rows[1], (2, false, String::from("plain")));
}

#[test]
fn load_undoes_control_escapes() {
    let text = "{\n  \"tasks\": [\n    {\n      \"description\": \"a\\u000ab\\u0009c\",\n      \"done\": false\n    }\n  ]\n}";
    let app = TodoApp::load_from_data(Some(text));
    let rows = rows_of(&app);
    assert_eq!(rows, vec![(1, false, String::from("a\nb\tc"))]);
}

#[test]
fn save_after_each_mutation_round_trips() {
    let mut app = store_of(&[("A", false), ("B", false), ("C", true)]);
    app.delete_task(2);
    app.mark_task_as_done(1);
    let text = app.save_to_string();
    let reloaded = TodoApp::load_from_data(Some(&text));
    assert_eq!(
        rows_of(&reloaded),
        vec![(1, true, String::from("A")), (2, true, String::from("C"))]
    );
}
