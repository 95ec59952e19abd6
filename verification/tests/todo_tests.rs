use template_rust::models::Todo;

#[test]
fn test_new_todo() {
    let todo = Todo::new("Test".to_string(), Some("Description".to_string()));
    assert_eq!(todo.title, "Test");
    assert_eq!(todo.description, Some("Description".to_string()));
    assert!(!todo.completed);
    assert!(!todo.id.is_empty());
}

#[test]
fn test_complete_todo() {
    let mut todo = Todo::new("Test".to_string(), None);
    todo.complete();
    assert!(todo.completed);
}

#[test]
fn test_uncomplete_todo() {
    let mut todo = Todo::new("Test".to_string(), None);
    todo.complete();
    todo.uncomplete();
    assert!(!todo.completed);
}

#[test]
fn test_update_todo() {
    let mut todo = Todo::new("Original".to_string(), None);
    todo.update(Some("Updated".to_string()), Some("New desc".to_string()));
    assert_eq!(todo.title, "Updated");
    assert_eq!(todo.description, Some("New desc".to_string()));
}

#[test]
fn test_todo_creation() {
    let todo = Todo::new(
        "Test todo".to_string(),
        Some("Test description".to_string()),
    );

    assert_eq!(todo.title, "Test todo");
    assert_eq!(todo.description, Some("Test description".to_string()));
    assert!(!todo.completed);
    assert!(!todo.id.is_empty());
}

#[test]
fn test_todo_completion() {
    let mut todo = Todo::new("Test todo".to_string(), None);
    let original_updated_at = todo.updated_at;

    todo.complete();

    assert!(todo.completed);
    assert!(todo.updated_at > original_updated_at);
}

#[test]
fn test_todo_update() {
    let mut todo = Todo::new("Original title".to_string(), None);
    let original_updated_at = todo.updated_at;

    todo.update(
        Some("Updated title".to_string()),
        Some("New description".to_string()),
    );

    assert_eq!(todo.title, "Updated title");
    assert_eq!(todo.description, Some("New description".to_string()));
    assert!(todo.updated_at > original_updated_at);
}

#[test]
fn test_fresh_ids_are_long_and_distinct() {
    let a = Todo::new("A".to_string(), None);
    let b = Todo::new("B".to_string(), None);
    assert_eq!(a.id.chars().count(), 36);
    assert_eq!(b.id.chars().count(), 36);
    assert_ne!(a.id, b.id);
}

#[test]
fn test_complete_then_uncomplete_strictly_increases_updated_at() {
    let mut todo = Todo::new("Test".to_string(), None);
    let t0 = todo.updated_at;
    todo.complete();
    let t1 = todo.updated_at;
    todo.uncomplete();
    let t2 = todo.updated_at;
    assert!(!todo.completed);
    assert!(t1 > t0);
    assert!(t2 > t1);
    assert!(todo.updated_at >= todo.created_at);
}
