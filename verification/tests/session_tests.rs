use template_rust::database::TodoDatabase;
use template_rust::models::Todo;
use template_rust::tui::{
    filter_label, item_label, trimmed, App, Filter, InputMode, Key, SessionAction,
};

fn task(id: &str, title: &str, created_at: i64) -> Todo {
    Todo {
        id: id.to_string(),
        title: title.to_string(),
        description: None,
        completed: false,
        created_at,
        updated_at: created_at,
    }
}

fn seeded_app(n: usize) -> App {
    let mut db = TodoDatabase::new();
    for k in 0..n {
        let id = format!("task-{}", k);
        let title = format!("Task {}", k);
        db.create_todo(&task(&id, &title, k as i64)).unwrap();
    }
    App::new(db)
}

#[test]
fn test_new_session_state() {
    let app = seeded_app(2);
    assert_eq!(app.todos().len(), 2);
    assert_eq!(app.selected(), Some(0));
    assert!(matches!(app.input_mode(), InputMode::Normal));
    assert!(matches!(app.filter(), Filter::All));
    assert_eq!(
        app.status_message(),
        "Welcome to Todo App! Press 'h' for help."
    );
}

#[test]
fn test_new_session_over_empty_store_has_no_cursor() {
    let app = App::new(TodoDatabase::new());
    assert!(app.todos().is_empty());
    assert_eq!(app.selected(), None);
}

#[test]
fn test_quit_and_help_keys() {
    let mut app = seeded_app(1);
    let r = app.handle_normal_input(Key::Char('q'), 50);
    assert!(matches!(r, SessionAction::Quit));
    let r = app.handle_normal_input(Key::Char('h'), 51);
    assert!(matches!(r, SessionAction::Nothing));
    assert!(app.status_message().starts_with("Commands: q=quit"));
}

#[test]
fn test_cursor_wraps_down_and_up() {
    let mut app = seeded_app(3);
    assert_eq!(app.selected(), Some(0));
    app.handle_normal_input(Key::Down, 1);
    assert_eq!(app.selected(), Some(1));
    app.handle_normal_input(Key::Down, 2);
    assert_eq!(app.selected(), Some(2));
    app.handle_normal_input(Key::Down, 3);
    assert_eq!(app.selected(), Some(0));
    app.handle_normal_input(Key::Up, 4);
    assert_eq!(app.selected(), Some(2));
    app.handle_normal_input(Key::Up, 5);
    assert_eq!(app.selected(), Some(1));
}

#[test]
fn test_cursor_stays_put_on_single_row() {
    let mut app = seeded_app(1);
    app.handle_normal_input(Key::Down, 1);
    assert_eq!(app.selected(), Some(0));
    app.handle_normal_input(Key::Up, 2);
    assert_eq!(app.selected(), Some(0));
}

#[test]
fn test_delete_clamps_cursor_after_filter_changes_and_deletions() {
    let mut app = seeded_app(3);
    app.handle_normal_input(Key::Down, 1);
    app.handle_normal_input(Key::Down, 2);
    assert_eq!(app.selected(), Some(2));

    let r = app.handle_normal_input(Key::Char('d'), 3);
    assert!(matches!(r, SessionAction::Deleted(_)));
    assert_eq!(app.todos().len(), 2);
    assert_eq!(app.selected(), Some(1));
    assert_eq!(app.status_message(), "Todo deleted!");

    app.handle_normal_input(Key::Char('d'), 4);
    assert_eq!(app.todos().len(), 1);
    assert_eq!(app.selected(), Some(0));

    app.handle_normal_input(Key::Char('d'), 5);
    assert!(app.todos().is_empty());
    assert_eq!(app.selected(), None);

    let r = app.handle_normal_input(Key::Char('d'), 6);
    assert!(matches!(r, SessionAction::Nothing));
    assert_eq!(app.selected(), None);
}

#[test]
fn test_toggle_complete_and_filters() {
    let mut app = seeded_app(3);
    let r = app.handle_normal_input(Key::Char('c'), 100);
    let toggled = match r {
        SessionAction::Updated(t) => t,
        other => panic!("expected an update, got {:?}", other),
    };
    assert!(toggled.completed);
    assert!(toggled.updated_at > toggled.created_at);
    assert_eq!(app.status_message(), "Todo marked as completed!");

    let r = app.handle_normal_input(Key::Char('f'), 101);
    assert!(matches!(r, SessionAction::Nothing));
    assert!(matches!(app.filter(), Filter::Completed));
    assert_eq!(app.status_message(), "Showing completed todos");
    assert_eq!(app.todos().len(), 1);
    assert_eq!(app.todos()[0].id, toggled.id);

    app.handle_normal_input(Key::Char('p'), 102);
    assert!(matches!(app.filter(), Filter::Pending));
    assert_eq!(app.status_message(), "Showing pending todos");
    assert_eq!(app.todos().len(), 2);

    app.handle_normal_input(Key::Char('a'), 103);
    assert!(matches!(app.filter(), Filter::All));
    assert_eq!(app.status_message(), "Showing all todos");
    assert_eq!(app.todos().len(), 3);

    // toggling back marks the row pending again and bumps the time once more
    app.handle_normal_input(Key::Char('c'), 104);
    assert_eq!(app.status_message(), "Todo marked as pending!");
    let row = app.todos()[0].clone();
    assert!(!row.completed);
    assert!(row.updated_at > toggled.updated_at);
}

#[test]
fn test_editing_scenario_types_abc_backspace_enter() {
    let mut app = App::new(TodoDatabase::new());
    let r = app.handle_normal_input(Key::Char('n'), 10);
    assert!(matches!(r, SessionAction::Nothing));
    assert!(matches!(app.input_mode(), InputMode::Editing));
    assert_eq!(
        app.status_message(),
        "Enter new todo (ESC to cancel, Enter to save):"
    );

    app.handle_editing_input(Key::Char('a'), 11).unwrap();
    app.handle_editing_input(Key::Char('b'), 12).unwrap();
    app.handle_editing_input(Key::Char('c'), 13).unwrap();
    assert_eq!(app.input(), "abc");
    assert_eq!(app.status_bar_text(), "New todo: abc");
    app.handle_editing_input(Key::Backspace, 14).unwrap();
    assert_eq!(app.input(), "ab");

    let r = app.handle_editing_input(Key::Enter, 15).unwrap();
    let created = match r {
        SessionAction::Created(t) => t,
        other => panic!("expected a creation, got {:?}", other),
    };
    assert_eq!(created.title, "ab");
    assert_eq!(created.description, None);
    assert!(!created.completed);

    assert!(matches!(app.input_mode(), InputMode::Normal));
    assert_eq!(app.input(), "");
    assert_eq!(app.status_message(), "Todo added!");
    assert_eq!(app.todos().len(), 1);
    assert_eq!(app.todos()[0].title, "ab");
    assert_eq!(app.selected(), Some(0));
}

#[test]
fn test_editing_trims_surrounding_spaces() {
    let mut app = App::new(TodoDatabase::new());
    app.handle_normal_input(Key::Char('n'), 1);
    for c in [' ', '\t', 'h', 'i', ' '] {
        app.handle_editing_input(Key::Char(c), 2).unwrap();
    }
    let r = app.handle_editing_input(Key::Enter, 3).unwrap();
    match r {
        SessionAction::Created(t) => assert_eq!(t.title, "hi"),
        other => panic!("expected a creation, got {:?}", other),
    }
}

#[test]
fn test_enter_on_empty_buffer_stays_in_editing() {
    let mut app = App::new(TodoDatabase::new());
    app.handle_normal_input(Key::Char('n'), 1);
    let r = app.handle_editing_input(Key::Enter, 2).unwrap();
    assert!(matches!(r, SessionAction::Nothing));
    assert!(matches!(app.input_mode(), InputMode::Editing));
    assert!(app.todos().is_empty());
}

#[test]
fn test_enter_on_blank_buffer_creates_nothing() {
    let mut app = App::new(TodoDatabase::new());
    app.handle_normal_input(Key::Char('n'), 1);
    for c in [' ', '\t', ' '] {
        app.handle_editing_input(Key::Char(c), 2).unwrap();
    }
    let r = app.handle_editing_input(Key::Enter, 3).unwrap();
    assert!(matches!(r, SessionAction::Nothing));
    assert!(matches!(app.input_mode(), InputMode::Editing));
    assert_eq!(app.input(), " \t ");
    assert!(app.todos().is_empty());
}

#[test]
fn test_cursor_stays_none_on_empty_list() {
    let mut app = App::new(TodoDatabase::new());
    assert_eq!(app.selected(), None);
    app.handle_normal_input(Key::Down, 1);
    assert_eq!(app.selected(), None);
    app.handle_normal_input(Key::Up, 2);
    assert_eq!(app.selected(), None);
}

#[test]
fn test_escape_cancels_editing() {
    let mut app = App::new(TodoDatabase::new());
    app.handle_normal_input(Key::Char('n'), 1);
    app.handle_editing_input(Key::Char('x'), 2).unwrap();
    let r = app.handle_editing_input(Key::Esc, 3).unwrap();
    assert!(matches!(r, SessionAction::Nothing));
    assert!(matches!(app.input_mode(), InputMode::Normal));
    assert_eq!(app.input(), "");
    assert_eq!(app.status_message(), "Cancelled");
    assert!(app.todos().is_empty());
}

#[test]
fn test_backspace_on_empty_buffer_is_a_no_op() {
    let mut app = App::new(TodoDatabase::new());
    app.handle_normal_input(Key::Char('n'), 1);
    app.handle_editing_input(Key::Backspace, 2).unwrap();
    assert_eq!(app.input(), "");
}

#[test]
fn test_unbound_keys_change_nothing() {
    let mut app = seeded_app(2);
    let before = app.selected();
    let r = app.handle_normal_input(Key::Char('z'), 1);
    assert!(matches!(r, SessionAction::Nothing));
    let r = app.handle_normal_input(Key::Other, 2);
    assert!(matches!(r, SessionAction::Nothing));
    assert_eq!(app.selected(), before);
    assert_eq!(app.todos().len(), 2);
}

#[test]
fn test_labels() {
    let mut done = task("a", "Ship it", 1);
    done.completed = true;
    assert_eq!(item_label(&done), "\u{2713} Ship it");
    let open = task("b", "Draft it", 2);
    assert_eq!(item_label(&open), "\u{25CB} Draft it");

    assert_eq!(filter_label(Filter::All), "All");
    assert_eq!(filter_label(Filter::Completed), "Completed");
    assert_eq!(filter_label(Filter::Pending), "Pending");
}

#[test]
fn test_trimmed() {
    assert_eq!(trimmed(&"  a b  ".to_string()), "a b");
    assert_eq!(trimmed(&"\t\n x \r\n".to_string()), "x");
    assert_eq!(trimmed(&"   ".to_string()), "");
    assert_eq!(trimmed(&"plain".to_string()), "plain");
}
