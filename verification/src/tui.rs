//! The interactive session: view state, key handling and the pure
//! text projections that a renderer draws.

use crate::database::{
    by_status, contains_id, spec_insert, spec_remove, spec_update, task_views, StorageError,
    TodoDatabase,
};
use crate::models::{spec_complete, spec_trim, spec_uncomplete, TaskView, Todo};
use vstd::prelude::*;
use vstd::string::StrSliceExecFns;
use vstd::string::StringExecFns;

verus! {

/// Relies on String::push, as std documents it: appends the given
/// character to the end of the string.
pub assume_specification[ String::push ](s: &mut String, ch: char)
    ensures
        final(s)@ == old(s)@.push(ch),
;

/// Relies on String::pop, as std documents it: removes the last
/// character from the string and returns it, or returns nothing when
/// the string is empty.
pub assume_specification[ String::pop ](s: &mut String) -> (r: Option<char>)
    ensures
        old(s)@.len() == 0 ==> r == None::<char> && final(s)@ == old(s)@,
        old(s)@.len() > 0 ==> r == Some(old(s)@.last()) && final(s)@ == old(s)@.drop_last(),
;

/// Which key-handling table is active.
#[derive(Debug, Clone, Copy, PartialEq, Eq, Structural)]
pub enum InputMode {
    Normal,
    Editing,
}

/// The active listing filter.
#[derive(Debug, Clone, Copy, PartialEq, Eq, Structural)]
pub enum Filter {
    All,
    Completed,
    Pending,
}

/// A key press, as the session understands it.
#[derive(Debug, Clone, Copy, PartialEq, Eq, Structural)]
pub enum Key {
    Char(char),
    Enter,
    Backspace,
    Esc,
    Up,
    Down,
    Other,
}

/// What a handled key asks the surrounding program to mirror to its
/// backing store: nothing, leaving the loop, or one storage write.
#[derive(Debug)]
pub enum SessionAction {
    Nothing,
    Quit,
    Created(Todo),
    Updated(Todo),
    Deleted(String),
}

/// Mathematical model of the session state.
pub ghost struct AppView {
    pub db: Seq<TaskView>,
    pub todos: Seq<TaskView>,
    pub selected: Option<int>,
    pub input: Seq<char>,
    pub input_mode: InputMode,
    pub status: Seq<char>,
    pub filter: Filter,
}

/// The stored rows that a filter lets through.
pub open spec fn spec_filtered(s: Seq<TaskView>, f: Filter) -> Seq<TaskView> {
    match f {
        Filter::All => s,
        Filter::Completed => by_status(s, true),
        Filter::Pending => by_status(s, false),
    }
}

/// The cursor after a list refresh: absent on an empty list, kept
/// when still in bounds, and otherwise clamped to the last row.
pub open spec fn spec_clamp(sel: Option<int>, len: int) -> Option<int> {
    if len == 0 {
        None
    } else {
        match sel {
            None => Some(0int),
            Some(i) => if i >= len {
                Some(len - 1)
            } else {
                Some(i)
            },
        }
    }
}

/// Law: a clamped cursor points nowhere exactly on an empty list and
/// otherwise at a row of the list, whatever it pointed at before; the
/// list refresh that follows every filter change and every deletion
/// clamps, so the session's cursor always satisfies this.
pub proof fn lemma_clamp_in_range(sel: Option<int>, len: int)
    requires
        len >= 0,
        (match sel {
            Some(i) => i >= 0,
            None => true,
        }),
    ensures
        ((spec_clamp(sel, len) is None) <==> len == 0),
        (match spec_clamp(sel, len) {
            Some(i) => 0 <= i < len,
            None => true,
        }),
{
}

/// The cursor after moving down: a no-op on an empty list, and
/// otherwise one row further, wrapping from the last row to the
/// first.
pub open spec fn spec_down(sel: Option<int>, len: int) -> Option<int> {
    if len == 0 {
        None
    } else {
        match sel {
            None => Some(0int),
            Some(i) => if i >= len - 1 {
                Some(0int)
            } else {
                Some(i + 1)
            },
        }
    }
}

/// The cursor after moving up: a no-op on an empty list, and
/// otherwise one row back, wrapping from the first row to the last.
pub open spec fn spec_up(sel: Option<int>, len: int) -> Option<int> {
    if len == 0 {
        None
    } else {
        match sel {
            None => Some(0int),
            Some(i) => if i == 0 {
                Some(len - 1)
            } else {
                Some(i - 1)
            },
        }
    }
}

/// The session state after a list refresh against the given stored
/// rows: the cached list is the filtered listing and the cursor is
/// clamped to it.
pub open spec fn spec_refresh(v: AppView, db: Seq<TaskView>) -> AppView {
    AppView {
        db: db,
        todos: spec_filtered(db, v.filter),
        selected: spec_clamp(v.selected, spec_filtered(db, v.filter).len() as int),
        ..v
    }
}

/// The cursor points nowhere exactly on an empty list, and otherwise
/// at a row of the list.
pub open spec fn cursor_ok(v: AppView) -> bool {
    &&& ((v.selected is None) <==> v.todos.len() == 0)
    &&& match v.selected {
        Some(i) => 0 <= i < v.todos.len(),
        None => true,
    }
}

/// The interactive session state: the persistence service, the cached
/// filtered listing, the selection cursor, the input buffer, the
/// active key table, the last feedback line and the active filter.
#[derive(Debug)]
pub struct App {
    db: TodoDatabase,
    todos: Vec<Todo>,
    selected: Option<usize>,
    input: String,
    input_mode: InputMode,
    status_message: String,
    filter: Filter,
}

impl View for App {
    type V = AppView;

    closed spec fn view(&self) -> AppView {
        AppView {
            db: self.db@,
            todos: task_views(self.todos@),
            selected: match self.selected {
                Some(i) => Some(i as int),
                None => None,
            },
            input: self.input@,
            input_mode: self.input_mode,
            status: self.status_message@,
            filter: self.filter,
        }
    }
}

impl App {
    /// The session invariant: the service invariant, a cached list
    /// that is the filtered listing of the stored rows, and a cursor
    /// that points nowhere exactly on an empty list and otherwise at
    /// a row of the list.
    pub closed spec fn wf(&self) -> bool {
        &&& self.db.wf()
        &&& task_views(self.todos@) == spec_filtered(self.db@, self.filter)
        &&& cursor_ok(self@)
    }

    /// Start a session over the given service: filter on every task,
    /// list fetched, cursor on the first row when there is one.
    pub fn new(db: TodoDatabase) -> (r: Self)
        requires
            db.wf(),
        ensures
            r.wf(),
            r@.db == db@,
            r@.todos == db@,
            r@.selected == spec_clamp(Some(0int), db@.len() as int),
            r@.input == Seq::<char>::empty(),
            r@.input_mode == InputMode::Normal,
            r@.status == "Welcome to Todo App! Press 'h' for help."@,
            r@.filter == Filter::All,
            cursor_ok(r@),
    {
        let mut app = App {
            db,
            todos: Vec::new(),
            selected: Some(0),
            input: String::new(),
            input_mode: InputMode::Normal,
            status_message: "Welcome to Todo App! Press 'h' for help.".to_owned(),
            filter: Filter::All,
        };
        app.refresh_todos();
        app
    }

    /// Re-fetch the filtered listing and clamp the cursor to it.
    fn refresh_todos(&mut self)
        requires
            old(self).db.wf(),
        ensures
            final(self).wf(),
            final(self)@ == spec_refresh(old(self)@, old(self)@.db),
            cursor_ok(final(self)@),
    {
        let todos = match self.filter {
            Filter::All => self.db.get_all_todos(),
            Filter::Completed => self.db.get_todos_by_status(true),
            Filter::Pending => self.db.get_todos_by_status(false),
        };
        self.todos = todos;
        if self.todos.is_empty() {
            self.selected = None;
        } else {
            match self.selected {
                Some(i) => {
                    if i >= self.todos.len() {
                        self.selected = Some(self.todos.len() - 1);
                    }
                },
                None => {
                    self.selected = Some(0);
                },
            }
        }
    }

    /// Handle one key press in the normal table, for a mutation
    /// observed at wall-clock time `now`; the returned action is what
    /// the caller mirrors to its own store.
    pub fn handle_normal_input(&mut self, key: Key, now: i64) -> (r: SessionAction)
        requires
            old(self).wf(),
            old(self)@.input_mode == InputMode::Normal,
        ensures
            final(self).wf(),
            cursor_ok(final(self)@),
            (key == Key::Char('q')) ==> final(self)@ == old(self)@ && (r matches
            SessionAction::Quit),
            (key == Key::Char('h')) ==> final(self)@ == (AppView {
                status:
                    "Commands: q=quit, n=new todo, d=delete, c=toggle complete, a=all, p=pending, f=finished, \u{2191}\u{2193}=navigate"@,
                ..old(self)@
            }) && (r matches SessionAction::Nothing),
            (key == Key::Char('n')) ==> final(self)@ == (AppView {
                input_mode: InputMode::Editing,
                input: Seq::<char>::empty(),
                status: "Enter new todo (ESC to cancel, Enter to save):"@,
                ..old(self)@
            }) && (r matches SessionAction::Nothing),
            (key == Key::Char('d')) ==> (match old(self)@.selected {
                Some(i) => if 0 <= i < old(self)@.todos.len() {
                    final(self)@ == (AppView {
                        status: "Todo deleted!"@,
                        ..spec_refresh(
                            old(self)@,
                            spec_remove(old(self)@.db, old(self)@.todos[i].id),
                        )
                    }) && (r matches SessionAction::Deleted(d) && d@ == old(self)@.todos[i].id)
                } else {
                    final(self)@ == old(self)@ && (r matches SessionAction::Nothing)
                },
                None => final(self)@ == old(self)@ && (r matches SessionAction::Nothing),
            }),
            (key == Key::Char('c')) ==> (match old(self)@.selected {
                Some(i) => if 0 <= i < old(self)@.todos.len() {
                    ({
                        let t1 = if old(self)@.todos[i].completed {
                            spec_uncomplete(old(self)@.todos[i], now as int)
                        } else {
                            spec_complete(old(self)@.todos[i], now as int)
                        };
                        final(self)@ == (AppView {
                            status: (if t1.completed {
                                "Todo marked as completed!"@
                            } else {
                                "Todo marked as pending!"@
                            }),
                            ..spec_refresh(old(self)@, spec_update(old(self)@.db, t1))
                        }) && (r matches SessionAction::Updated(u) && u@ == t1)
                    })
                } else {
                    final(self)@ == old(self)@ && (r matches SessionAction::Nothing)
                },
                None => final(self)@ == old(self)@ && (r matches SessionAction::Nothing),
            }),
            (key == Key::Char('a')) ==> final(self)@ == (AppView {
                status: "Showing all todos"@,
                ..spec_refresh(
                    AppView { filter: Filter::All, ..old(self)@ },
                    old(self)@.db,
                )
            }) && (r matches SessionAction::Nothing),
            (key == Key::Char('p')) ==> final(self)@ == (AppView {
                status: "Showing pending todos"@,
                ..spec_refresh(
                    AppView { filter: Filter::Pending, ..old(self)@ },
                    old(self)@.db,
                )
            }) && (r matches SessionAction::Nothing),
            (key == Key::Char('f')) ==> final(self)@ == (AppView {
                status: "Showing completed todos"@,
                ..spec_refresh(
                    AppView { filter: Filter::Completed, ..old(self)@ },
                    old(self)@.db,
                )
            }) && (r matches SessionAction::Nothing),
            (key == Key::Down) ==> final(self)@ == (AppView {
                selected: spec_down(old(self)@.selected, old(self)@.todos.len() as int),
                ..old(self)@
            }) && (r matches SessionAction::Nothing),
            (key == Key::Up) ==> final(self)@ == (AppView {
                selected: spec_up(old(self)@.selected, old(self)@.todos.len() as int),
                ..old(self)@
            }) && (r matches SessionAction::Nothing),
            (match key {
                Key::Char(c) => !(c == 'q' || c == 'h' || c == 'n' || c == 'd' || c == 'c' || c
                    == 'a' || c == 'p' || c == 'f'),
                Key::Down | Key::Up => false,
                _ => true,
            }) ==> final(self)@ == old(self)@ && (r matches SessionAction::Nothing),
    {
        match key {
            Key::Char(ch) => {
                if ch == 'q' {
                    SessionAction::Quit
                } else if ch == 'h' {
                    self.status_message =
                        "Commands: q=quit, n=new todo, d=delete, c=toggle complete, a=all, p=pending, f=finished, \u{2191}\u{2193}=navigate".to_owned();
                    SessionAction::Nothing
                } else if ch == 'n' {
                    self.input_mode = InputMode::Editing;
                    self.input = String::new();
                    self.status_message = "Enter new todo (ESC to cancel, Enter to save):".to_owned();
                    SessionAction::Nothing
                } else if ch == 'd' {
                    if let Some(i) = self.selected {
                        if i < self.todos.len() {
                            let victim = self.todos[i].clone();
                            self.db.delete_todo(victim.id.as_str());
                            self.refresh_todos();
                            self.status_message = "Todo deleted!".to_owned();
                            return SessionAction::Deleted(victim.id);
                        }
                    }
                    SessionAction::Nothing
                } else if ch == 'c' {
                    if let Some(i) = self.selected {
                        if i < self.todos.len() {
                            let mut todo = self.todos[i].clone();
                            if todo.completed {
                                todo.uncomplete_at(now);
                            } else {
                                todo.complete_at(now);
                            }
                            self.db.update_todo(&todo);
                            self.refresh_todos();
                            self.status_message = if todo.completed {
                                "Todo marked as completed!".to_owned()
                            } else {
                                "Todo marked as pending!".to_owned()
                            };
                            return SessionAction::Updated(todo);
                        }
                    }
                    SessionAction::Nothing
                } else if ch == 'a' {
                    self.filter = Filter::All;
                    self.refresh_todos();
                    self.status_message = "Showing all todos".to_owned();
                    SessionAction::Nothing
                } else if ch == 'p' {
                    self.filter = Filter::Pending;
                    self.refresh_todos();
                    self.status_message = "Showing pending todos".to_owned();
                    SessionAction::Nothing
                } else if ch == 'f' {
                    self.filter = Filter::Completed;
                    self.refresh_todos();
                    self.status_message = "Showing completed todos".to_owned();
                    SessionAction::Nothing
                } else {
                    SessionAction::Nothing
                }
            },
            Key::Down => {
                let len = self.todos.len();
                if len > 0 {
                    let i = match self.selected {
                        Some(i) => if i >= len - 1 {
                            0
                        } else {
                            i + 1
                        },
                        None => 0,
                    };
                    self.selected = Some(i);
                }
                SessionAction::Nothing
            },
            Key::Up => {
                let len = self.todos.len();
                if len > 0 {
                    let i = match self.selected {
                        Some(i) => if i == 0 {
                            len - 1
                        } else {
                            i - 1
                        },
                        None => 0,
                    };
                    self.selected = Some(i);
                }
                SessionAction::Nothing
            },
            _ => SessionAction::Nothing,
        }
    }

    /// Handle one key press in the editing table, for a mutation
    /// observed at wall-clock time `now`. A task is created only when
    /// the trimmed buffer is non-empty — titles are non-empty, and
    /// this call site enforces it — so a blank buffer is a no-op that
    /// stays in the editing table. A conflict on the freshly drawn
    /// identifier is reported as the storage error and changes
    /// nothing; any other outcome succeeds.
    pub fn handle_editing_input(&mut self, key: Key, now: i64) -> (r: Result<
        SessionAction,
        StorageError,
    >)
        requires
            old(self).wf(),
            old(self)@.input_mode == InputMode::Editing,
        ensures
            final(self).wf(),
            cursor_ok(final(self)@),
            (key == Key::Enter && spec_trim(old(self)@.input).len() == 0) ==> final(self)@ == old(
                self,
            )@ && (r matches Ok(a) && a matches SessionAction::Nothing),
            (key == Key::Enter && spec_trim(old(self)@.input).len() > 0) ==> ((r matches Ok(a)
                ==> (a matches SessionAction::Created(t) && t@.title == spec_trim(
                old(self)@.input,
            ) && t@.title.len() > 0 && (t@.description is None) && !t@.completed && t@.id.len()
                == 36 && t@.created_at == now as int && t@.updated_at == now as int
                && !contains_id(old(self)@.db, t@.id) && final(self)@ == (AppView {
                input: Seq::<char>::empty(),
                input_mode: InputMode::Normal,
                status: "Todo added!"@,
                ..spec_refresh(old(self)@, spec_insert(old(self)@.db, t@))
            }))) && (r matches Err(e) ==> e == StorageError::Conflict && final(self)@ == old(
                self,
            )@ && old(self)@.db.len() > 0)),
            key matches Key::Char(c) ==> (final(self)@ == (AppView {
                input: old(self)@.input.push(c),
                ..old(self)@
            }) && (r matches Ok(a) && a matches SessionAction::Nothing)),
            (key == Key::Backspace) ==> final(self)@ == (AppView {
                input: (if old(self)@.input.len() > 0 {
                    old(self)@.input.drop_last()
                } else {
                    old(self)@.input
                }),
                ..old(self)@
            }) && (r matches Ok(a) && a matches SessionAction::Nothing),
            (key == Key::Esc) ==> final(self)@ == (AppView {
                input: Seq::<char>::empty(),
                input_mode: InputMode::Normal,
                status: "Cancelled"@,
                ..old(self)@
            }) && (r matches Ok(a) && a matches SessionAction::Nothing),
            (key == Key::Up || key == Key::Down || key == Key::Other) ==> final(self)@ == old(
                self,
            )@ && (r matches Ok(a) && a matches SessionAction::Nothing),
    {
        match key {
            Key::Enter => {
                let title = trimmed(&self.input);
                if title.as_str().is_empty() {
                    return Ok(SessionAction::Nothing);
                }
                let id = crate::models::fresh_id();
                let todo = Todo {
                    id,
                    title,
                    description: None,
                    completed: false,
                    created_at: now,
                    updated_at: now,
                };
                match self.db.create_todo(&todo) {
                    Ok(_) => {
                        self.input = String::new();
                        self.input_mode = InputMode::Normal;
                        self.refresh_todos();
                        self.status_message = "Todo added!".to_owned();
                        Ok(SessionAction::Created(todo))
                    },
                    Err(e) => Err(e),
                }
            },
            Key::Char(c) => {
                self.input.push(c);
                Ok(SessionAction::Nothing)
            },
            Key::Backspace => {
                self.input.pop();
                Ok(SessionAction::Nothing)
            },
            Key::Esc => {
                self.input = String::new();
                self.input_mode = InputMode::Normal;
                self.status_message = "Cancelled".to_owned();
                Ok(SessionAction::Nothing)
            },
            _ => Ok(SessionAction::Nothing),
        }
    }

    /// The cached filtered listing, newest first.
    pub fn todos(&self) -> (r: &Vec<Todo>)
        ensures
            task_views(r@) == self@.todos,
    {
        &self.todos
    }

    /// The selection cursor.
    pub fn selected(&self) -> (r: Option<usize>)
        ensures
            (match r {
                Some(i) => Some(i as int),
                None => None,
            }) == self@.selected,
    {
        self.selected
    }

    /// The input buffer.
    pub fn input(&self) -> (r: &String)
        ensures
            r@ == self@.input,
    {
        &self.input
    }

    /// The active key table.
    pub fn input_mode(&self) -> (r: InputMode)
        ensures
            r == self@.input_mode,
    {
        self.input_mode
    }

    /// The last feedback line.
    pub fn status_message(&self) -> (r: &String)
        ensures
            r@ == self@.status,
    {
        &self.status_message
    }

    /// The active filter.
    pub fn filter(&self) -> (r: Filter)
        ensures
            r == self@.filter,
    {
        self.filter
    }

    /// The text of the status bar: the feedback line in the normal
    /// table, a live preview of the input buffer in the editing
    /// table.
    pub fn status_bar_text(&self) -> (r: String)
        ensures
            r@ == (match self@.input_mode {
                InputMode::Normal => self@.status,
                InputMode::Editing => "New todo: "@ + self@.input,
            }),
    {
        match self.input_mode {
            InputMode::Normal => self.status_message.clone(),
            InputMode::Editing => {
                let mut s = "New todo: ".to_owned();
                s.append(self.input.as_str());
                s
            },
        }
    }
}

/// The one-line decoration of a listed task: a check mark when
/// completed, a circle when pending, then its title.
pub fn item_label(todo: &Todo) -> (r: String)
    ensures
        r@ == (if todo@.completed {
            "\u{2713} "@
        } else {
            "\u{25CB} "@
        }) + todo@.title,
{
    let mut s = if todo.completed {
        "\u{2713} ".to_owned()
    } else {
        "\u{25CB} ".to_owned()
    };
    s.append(todo.title.as_str());
    s
}

/// The label of a filter, as shown in the list title.
pub fn filter_label(f: Filter) -> (r: &'static str)
    ensures
        r@ == (match f {
            Filter::All => "All"@,
            Filter::Completed => "Completed"@,
            Filter::Pending => "Pending"@,
        }),
{
    match f {
        Filter::All => "All",
        Filter::Completed => "Completed",
        Filter::Pending => "Pending",
    }
}

/// The input buffer stripped of leading and trailing white space.
pub fn trimmed(s: &String) -> (r: String)
    ensures
        r@ == spec_trim(s@),
{
    let a = first_non_space(s.as_str());
    let b = last_non_space_from(s.as_str(), a);
    let t = s.as_str().substring_char(a, b);
    t.to_owned()
}

/// A white-space character, executable form.
fn is_space(c: char) -> (r: bool)
    ensures
        r == crate::models::is_space_char(c),
{
    let u = c as u32;
    u == 0x20 || (0x09 <= u && u <= 0x0D) || u == 0x85 || u == 0xA0 || u == 0x1680 || (0x2000 <= u
        && u <= 0x200A) || u == 0x2028 || u == 0x2029 || u == 0x202F || u == 0x205F || u == 0x3000
}

/// The index of the first character that is not white space, or the
/// length when all are.
fn first_non_space(s: &str) -> (a: usize)
    ensures
        a <= s@.len(),
        crate::models::spec_trim_front(s@) == s@.skip(a as int),
        a < s@.len() ==> !crate::models::is_space_char(s@[a as int]),
{
    let n = s.unicode_len();
    let mut a: usize = 0;
    proof {
        assert(s@.skip(0) =~= s@);
    }
    while a < n
        invariant
            n == s@.len(),
            a <= n,
            crate::models::spec_trim_front(s@) == crate::models::spec_trim_front(
                s@.skip(a as int),
            ),
        decreases n - a,
    {
        let c = s.get_char(a);
        if !is_space(c) {
            proof {
                assert(s@.skip(a as int)[0] == s@[a as int]);
            }
            return a;
        }
        proof {
            assert(s@.skip(a as int)[0] == s@[a as int]);
            assert(s@.skip(a as int).drop_first() =~= s@.skip(a as int + 1));
        }
        a += 1;
    }
    proof {
        assert(s@.skip(n as int) =~= Seq::<char>::empty());
    }
    a
}

/// The index after the last character that is not white space, at or
/// after `a`; `a` itself when all after it are.
fn last_non_space_from(s: &str, a: usize) -> (b: usize)
    requires
        a <= s@.len(),
        a < s@.len() ==> !crate::models::is_space_char(s@[a as int]),
    ensures
        a <= b <= s@.len(),
        crate::models::spec_trim_back(s@.skip(a as int)) == s@.subrange(a as int, b as int),
{
    let n = s.unicode_len();
    let mut b: usize = n;
    proof {
        assert(s@.subrange(a as int, n as int) =~= s@.skip(a as int));
    }
    while b > a
        invariant
            n == s@.len(),
            a <= b <= n,
            crate::models::spec_trim_back(s@.skip(a as int)) == crate::models::spec_trim_back(
                s@.subrange(a as int, b as int),
            ),
        decreases b,
    {
        let c = s.get_char(b - 1);
        if !is_space(c) {
            proof {
                assert(s@.subrange(a as int, b as int).last() == s@[b - 1]);
            }
            return b;
        }
        proof {
            assert(s@.subrange(a as int, b as int).last() == s@[b - 1]);
            assert(s@.subrange(a as int, b as int).drop_last() =~= s@.subrange(
                a as int,
                b - 1,
            ));
        }
        b -= 1;
    }
    proof {
        assert(s@.subrange(a as int, a as int) =~= Seq::<char>::empty());
    }
    a
}

} // verus!
