use todo_store::store::TodoApp;
use todo_store::task::{Task, TodoError};

fn sample_app() -> TodoApp {
    let mut app = TodoApp::empty();
    app.add_task("Buy milk".to_string(), 2, None).unwrap();
    app.add_task("Pay rent".to_string(), 3, Some("finance".to_string())).unwrap();
    app.add_task("Call mom".to_string(), 1, Some("family".to_string())).unwrap();
    app
}

fn titles(pairs: &[(usize, Task)]) -> Vec<(usize, String)> {
    pairs.iter().map(|p| (p.0, p.1.title.clone())).collect()
}

#[test]
fn adds_keep_order_and_fields() {
    let app = sample_app();
    let listed = app.list(None);
    assert_eq!(listed.len(), 3);
    assert_eq!(listed[0].0, 0);
    assert_eq!(listed[0].1.title, "Buy milk");
    assert_eq!(listed[0].1.priority, 2);
    assert!(!listed[0].1.completed);
    assert_eq!(listed[0].1.category, None);
    assert_eq!(listed[1].0, 1);
    assert_eq!(listed[1].1.title, "Pay rent");
    assert_eq!(listed[1].1.priority, 3);
    assert!(!listed[1].1.completed);
    assert_eq!(listed[1].1.category.as_deref(), Some("finance"));
    assert_eq!(listed[2].0, 2);
    assert_eq!(listed[2].1.title, "Call mom");
    assert_eq!(listed[2].1.priority, 1);
}

#[test]
fn empty_title_is_rejected_without_mutation() {
    let mut app = sample_app();
    let before = app.save_string();
    let r = app.add_task("".to_string(), 2, None);
    assert_eq!(r, Err(TodoError::EmptyTitle));
    assert_eq!(app.tasks.len(), 3);
    assert_eq!(app.save_string(), before);
}

#[test]
fn out_of_range_priority_is_rejected_without_mutation() {
    let mut app = sample_app();
    let before = app.save_string();
    assert_eq!(app.add_task("Walk dog".to_string(), 0, None), Err(TodoError::InvalidPriority));
    assert_eq!(app.add_task("Walk dog".to_string(), 4, None), Err(TodoError::InvalidPriority));
    assert_eq!(app.tasks.len(), 3);
    assert_eq!(app.save_string(), before);
}

#[test]
fn complete_sets_exactly_one_task() {
    let mut app = sample_app();
    assert!(app.complete_task(1));
    assert!(!app.tasks[0].completed);
    assert!(app.tasks[1].completed);
    assert!(!app.tasks[2].completed);
    assert_eq!(app.tasks[1].title, "Pay rent");
    assert_eq!(app.tasks[1].priority, 3);
    assert_eq!(app.tasks[1].category.as_deref(), Some("finance"));
}

#[test]
fn complete_out_of_range_is_a_miss() {
    let mut app = sample_app();
    let before = app.save_string();
    assert!(!app.complete_task(3));
    assert!(!app.complete_task(usize::MAX));
    assert_eq!(app.save_string(), before);
}

#[test]
fn remove_returns_the_task_and_shifts_the_rest() {
    let mut app = sample_app();
    let removed = app.remove_task(1).unwrap();
    assert_eq!(removed.title, "Pay rent");
    assert_eq!(removed.priority, 3);
    assert_eq!(removed.category.as_deref(), Some("finance"));
    assert_eq!(app.tasks.len(), 2);
    assert_eq!(app.tasks[0].title, "Buy milk");
    assert_eq!(app.tasks[1].title, "Call mom");
}

#[test]
fn remove_out_of_range_is_a_miss() {
    let mut app = sample_app();
    let before = app.save_string();
    assert!(app.remove_task(3).is_none());
    assert_eq!(app.tasks.len(), 3);
    assert_eq!(app.save_string(), before);
}

#[test]
fn clear_completed_keeps_remaining_order_and_is_idempotent() {
    let mut app = sample_app();
    app.complete_task(1);
    app.clear_completed();
    assert_eq!(app.tasks.len(), 2);
    assert_eq!(app.tasks[0].title, "Buy milk");
    assert_eq!(app.tasks[1].title, "Call mom");
    let once = app.save_string();
    app.clear_completed();
    assert_eq!(app.save_string(), once);
}

#[test]
fn clear_completed_on_untouched_store_is_a_no_op() {
    let mut app = sample_app();
    app.clear_completed();
    assert_eq!(app.tasks.len(), 3);
}

#[test]
fn filter_matches_title_or_category() {
    let mut app = TodoApp::empty();
    app.add_task("work on report".to_string(), 2, None).unwrap();
    app.add_task("buy groceries".to_string(), 1, Some("homework".to_string())).unwrap();
    app.add_task("water plants".to_string(), 1, None).unwrap();
    app.add_task("send invoice".to_string(), 3, Some("work".to_string())).unwrap();
    let listed = app.list(Some("work"));
    assert_eq!(
        titles(&listed),
        vec![
            (0, "work on report".to_string()),
            (1, "buy groceries".to_string()),
            (3, "send invoice".to_string()),
        ]
    );
}

#[test]
fn filter_with_no_match_is_empty() {
    let app = sample_app();
    assert!(app.list(Some("plumbing")).is_empty());
}

#[test]
fn uncategorized_task_can_still_match_by_title() {
    let mut app = TodoApp::empty();
    app.add_task("work out".to_string(), 1, None).unwrap();
    let listed = app.list(Some("work"));
    assert_eq!(titles(&listed), vec![(0, "work out".to_string())]);
}

#[test]
fn empty_search_string_matches_every_task() {
    let app = sample_app();
    assert_eq!(app.list(Some("")).len(), 3);
}

#[test]
fn full_session_scenario() {
    let mut app = TodoApp::empty();
    app.add_task("Buy milk".to_string(), 2, None).unwrap();
    assert_eq!(app.tasks.len(), 1);
    assert_eq!(app.tasks[0].title, "Buy milk");
    assert_eq!(app.tasks[0].priority, 2);
    assert!(!app.tasks[0].completed);
    assert_eq!(app.tasks[0].category, None);

    app.add_task("Pay rent".to_string(), 3, Some("finance".to_string())).unwrap();
    assert_eq!(app.tasks.len(), 2);

    assert!(app.complete_task(0));
    assert!(app.tasks[0].completed);

    let removed = app.remove_task(1).unwrap();
    assert_eq!(removed.title, "Pay rent");
    assert_eq!(app.tasks.len(), 1);
    assert_eq!(app.tasks[0].title, "Buy milk");
    assert!(app.tasks[0].completed);

    app.clear_completed();
    assert!(app.tasks.is_empty());
}
