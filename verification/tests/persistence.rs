use todo_store::store::TodoApp;

fn assert_same_tasks(a: &TodoApp, b: &TodoApp) {
    assert_eq!(a.tasks.len(), b.tasks.len());
    for i in 0..a.tasks.len() {
        assert_eq!(a.tasks[i].title, b.tasks[i].title);
        assert_eq!(a.tasks[i].priority, b.tasks[i].priority);
        assert_eq!(a.tasks[i].completed, b.tasks[i].completed);
        assert_eq!(a.tasks[i].category, b.tasks[i].category);
    }
}

fn reload(app: &TodoApp) -> TodoApp {
    let saved = app.save_string();
    match TodoApp::from_saved(Some(saved.as_str())) {
        Ok(a) => a,
        Err(_) => panic!("saved snapshot did not parse back"),
    }
}

#[test]
fn saved_text_has_the_documented_shape() {
    let mut app = TodoApp::empty();
    app.add_task("Buy milk".to_string(), 2, None).unwrap();
    assert_eq!(
        app.save_string(),
        "[{\"title\":\"Buy milk\",\"priority\":2,\"completed\":false,\"category\":null}]"
    );
    app.add_task("Pay rent".to_string(), 3, Some("finance".to_string())).unwrap();
    app.complete_task(0);
    assert_eq!(
        app.save_string(),
        "[{\"title\":\"Buy milk\",\"priority\":2,\"completed\":true,\"category\":null},\
         {\"title\":\"Pay rent\",\"priority\":3,\"completed\":false,\"category\":\"finance\"}]"
    );
}

#[test]
fn empty_store_saves_as_empty_list() {
    let app = TodoApp::empty();
    assert_eq!(app.save_string(), "[]");
    let back = reload(&app);
    assert!(back.tasks.is_empty());
}

#[test]
fn round_trip_after_each_mutation() {
    let mut app = TodoApp::empty();
    app.add_task("Buy milk".to_string(), 2, None).unwrap();
    assert_same_tasks(&app, &reload(&app));
    app.add_task("Pay rent".to_string(), 3, Some("finance".to_string())).unwrap();
    assert_same_tasks(&app, &reload(&app));
    app.complete_task(0);
    assert_same_tasks(&app, &reload(&app));
    app.remove_task(1);
    assert_same_tasks(&app, &reload(&app));
    app.clear_completed();
    assert_same_tasks(&app, &reload(&app));
}

#[test]
fn round_trip_keeps_quotes_and_backslashes() {
    let mut app = TodoApp::empty();
    app.add_task("say \"hi\" to C:\\temp".to_string(), 1, Some("notes\\\"misc\"".to_string()))
        .unwrap();
    let saved = app.save_string();
    assert_eq!(
        saved,
        "[{\"title\":\"say \\\"hi\\\" to C:\\\\temp\",\"priority\":1,\"completed\":false,\
         \"category\":\"notes\\\\\\\"misc\\\"\"}]"
    );
    let back = reload(&app);
    assert_same_tasks(&app, &back);
}

#[test]
fn round_trip_keeps_unicode_text() {
    let mut app = TodoApp::empty();
    app.add_task("café ☕ für später".to_string(), 3, Some("ähm…".to_string())).unwrap();
    assert_same_tasks(&app, &reload(&app));
}

#[test]
fn missing_file_loads_an_empty_store() {
    let app = TodoApp::from_saved(None).unwrap();
    assert!(app.tasks.is_empty());
}

#[test]
fn malformed_text_fails_the_load() {
    assert!(TodoApp::from_saved(Some("")).is_err());
    assert!(TodoApp::from_saved(Some("not json")).is_err());
    assert!(TodoApp::from_saved(Some("[")).is_err());
    assert!(TodoApp::from_saved(Some("{}")).is_err());
    assert!(TodoApp::from_saved(Some("[]extra")).is_err());
    assert!(TodoApp::from_saved(Some(
        "[{\"title\":\"a\",\"priority\":2,\"completed\":false,\"category\":null}")) // no bracket
    .is_err());
}

#[test]
fn record_with_empty_title_is_refused() {
    let text = "[{\"title\":\"\",\"priority\":2,\"completed\":false,\"category\":null}]";
    assert!(TodoApp::from_saved(Some(text)).is_err());
}

#[test]
fn record_with_out_of_range_priority_is_refused() {
    let text = "[{\"title\":\"a\",\"priority\":4,\"completed\":false,\"category\":null}]";
    assert!(TodoApp::from_saved(Some(text)).is_err());
    let text0 = "[{\"title\":\"a\",\"priority\":0,\"completed\":false,\"category\":null}]";
    assert!(TodoApp::from_saved(Some(text0)).is_err());
}

#[test]
fn record_with_bad_escape_is_refused() {
    let text = "[{\"title\":\"a\\n\",\"priority\":2,\"completed\":false,\"category\":null}]";
    assert!(TodoApp::from_saved(Some(text)).is_err());
}

#[test]
fn valid_snapshot_loads_every_field() {
    let text = "[{\"title\":\"Buy milk\",\"priority\":2,\"completed\":true,\"category\":null},\
                {\"title\":\"Pay rent\",\"priority\":3,\"completed\":false,\"category\":\"finance\"}]";
    let app = TodoApp::from_saved(Some(text)).unwrap();
    assert_eq!(app.tasks.len(), 2);
    assert_eq!(app.tasks[0].title, "Buy milk");
    assert_eq!(app.tasks[0].priority, 2);
    assert!(app.tasks[0].completed);
    assert_eq!(app.tasks[0].category, None);
    assert_eq!(app.tasks[1].title, "Pay rent");
    assert_eq!(app.tasks[1].priority, 3);
    assert!(!app.tasks[1].completed);
    assert_eq!(app.tasks[1].category.as_deref(), Some("finance"));
}
