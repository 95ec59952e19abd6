use template_rust::database::{StorageError, TodoDatabase};
use template_rust::models::Todo;

fn task(id: &str, title: &str, created_at: i64) -> Todo {
    Todo {
        id: id.to_string(),
        title: title.to_string(),
        description: None,
        completed: false,
        created_at,
        updated_at: created_at,
    }
}

#[test]
fn test_create_then_get_returns_equal_task() {
    let mut db = TodoDatabase::new();
    let todo = Todo::new("Learn things".to_string(), Some("with care".to_string()));
    db.create_todo(&todo).unwrap();

    let got = db.get_todo(&todo.id).expect("created task must be found");
    assert_eq!(got.id, todo.id);
    assert_eq!(got.title, todo.title);
    assert_eq!(got.description, todo.description);
    assert_eq!(got.completed, todo.completed);
    assert_eq!(got.created_at, todo.created_at);
    assert_eq!(got.updated_at, todo.updated_at);
}

#[test]
fn test_get_absent_id_is_none_not_error() {
    let db = TodoDatabase::new();
    assert!(db.get_todo("nothing-here").is_none());
}

#[test]
fn test_create_duplicate_id_is_conflict() {
    let mut db = TodoDatabase::new();
    let todo = task("same-id", "First", 1);
    db.create_todo(&todo).unwrap();
    let again = task("same-id", "Second", 2);
    assert_eq!(db.create_todo(&again), Err(StorageError::Conflict));
    assert_eq!(db.get_all_todos().len(), 1);
    assert_eq!(db.get_todo("same-id").unwrap().title, "First");
}

#[test]
fn test_list_all_is_newest_first() {
    let mut db = TodoDatabase::new();
    db.create_todo(&task("a", "oldest", 10)).unwrap();
    db.create_todo(&task("b", "middle", 20)).unwrap();
    db.create_todo(&task("c", "newest", 30)).unwrap();

    let all = db.get_all_todos();
    let titles: Vec<&str> = all.iter().map(|t| t.title.as_str()).collect();
    assert_eq!(titles, vec!["newest", "middle", "oldest"]);
    for w in all.windows(2) {
        assert!(w[0].created_at >= w[1].created_at);
    }
}

#[test]
fn test_inserting_in_sequence_lists_in_reverse_insertion_order() {
    let mut db = TodoDatabase::new();
    for (id, stamp) in [("one", 5), ("two", 5), ("three", 7), ("four", 7)] {
        db.create_todo(&task(id, id, stamp)).unwrap();
    }
    let ids: Vec<String> = db.get_all_todos().iter().map(|t| t.id.clone()).collect();
    assert_eq!(ids, vec!["four", "three", "two", "one"]);
}

#[test]
fn test_status_lists_partition_the_full_list() {
    let mut db = TodoDatabase::new();
    db.create_todo(&task("a", "A", 1)).unwrap();
    let mut b = task("b", "B", 2);
    b.completed = true;
    db.create_todo(&b).unwrap();
    db.create_todo(&task("c", "C", 3)).unwrap();
    let mut d = task("d", "D", 4);
    d.completed = true;
    db.create_todo(&d).unwrap();
    db.delete_todo("c");

    let mut union: Vec<String> = db
        .get_todos_by_status(true)
        .iter()
        .chain(db.get_todos_by_status(false).iter())
        .map(|t| t.id.clone())
        .collect();
    union.sort();
    let mut all: Vec<String> = db.get_all_todos().iter().map(|t| t.id.clone()).collect();
    all.sort();
    assert_eq!(union, all);
}

#[test]
fn test_update_overwrites_fields_and_keeps_created_at() {
    let mut db = TodoDatabase::new();
    db.create_todo(&task("x", "Before", 100)).unwrap();

    let replacement = Todo {
        id: "x".to_string(),
        title: "After".to_string(),
        description: Some("notes".to_string()),
        completed: true,
        created_at: 9999,
        updated_at: 200,
    };
    assert_eq!(db.update_todo(&replacement), 1);

    let got = db.get_todo("x").unwrap();
    assert_eq!(got.title, "After");
    assert_eq!(got.description, Some("notes".to_string()));
    assert!(got.completed);
    assert_eq!(got.created_at, 100);
    assert_eq!(got.updated_at, 200);
}

#[test]
fn test_update_of_absent_id_affects_no_rows() {
    let mut db = TodoDatabase::new();
    db.create_todo(&task("x", "Kept", 1)).unwrap();
    assert_eq!(db.update_todo(&task("ghost", "Ignored", 2)), 0);
    assert_eq!(db.get_all_todos().len(), 1);
    assert_eq!(db.get_todo("x").unwrap().title, "Kept");
}

#[test]
fn test_delete_of_absent_id_is_a_no_op() {
    let mut db = TodoDatabase::new();
    db.create_todo(&task("a", "A", 1)).unwrap();
    db.create_todo(&task("b", "B", 2)).unwrap();
    let before: Vec<String> = db.get_all_todos().iter().map(|t| t.id.clone()).collect();

    assert_eq!(db.delete_todo("not-there"), 0);

    let after: Vec<String> = db.get_all_todos().iter().map(|t| t.id.clone()).collect();
    assert_eq!(before, after);
}

#[test]
fn test_delete_removes_exactly_the_row() {
    let mut db = TodoDatabase::new();
    db.create_todo(&task("a", "A", 1)).unwrap();
    db.create_todo(&task("b", "B", 2)).unwrap();
    assert_eq!(db.delete_todo("a"), 1);
    let ids: Vec<String> = db.get_all_todos().iter().map(|t| t.id.clone()).collect();
    assert_eq!(ids, vec!["b".to_string()]);
    assert!(db.get_todo("a").is_none());
}

#[test]
fn test_three_tasks_scenario() {
    let mut db = TodoDatabase::new();
    let learn = Todo::new("Learn X".to_string(), Some("a language".to_string()));
    db.create_todo(&learn).unwrap();
    let build = Todo::new("Build Y".to_string(), None);
    db.create_todo(&build).unwrap();
    let write = Todo::new("Write Z".to_string(), Some("a report".to_string()));
    db.create_todo(&write).unwrap();

    let all: Vec<String> = db.get_all_todos().iter().map(|t| t.title.clone()).collect();
    assert_eq!(all, vec!["Write Z", "Build Y", "Learn X"]);

    let mut done = db.get_todo(&learn.id).unwrap();
    done.complete();
    assert_eq!(db.update_todo(&done), 1);

    let pending: Vec<String> =
        db.get_todos_by_status(false).iter().map(|t| t.title.clone()).collect();
    assert_eq!(pending, vec!["Write Z", "Build Y"]);
}
