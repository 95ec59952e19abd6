//! The task record and its mathematical model.

use vstd::prelude::*;

verus! {

/// Mathematical model of a task: text fields as character sequences,
/// timestamps as unbounded integers.
pub ghost struct TaskView {
    pub id: Seq<char>,
    pub title: Seq<char>,
    pub description: Option<Seq<char>>,
    pub completed: bool,
    pub created_at: int,
    pub updated_at: int,
}

/// A task: unique identifier, title, optional description, completion
/// flag, and creation/modification times in milliseconds since the
/// Unix epoch.
#[derive(Debug)]
pub struct Todo {
    pub id: String,
    pub title: String,
    pub description: Option<String>,
    pub completed: bool,
    pub created_at: i64,
    pub updated_at: i64,
}

impl View for Todo {
    type V = TaskView;

    open spec fn view(&self) -> TaskView {
        TaskView {
            id: self.id@,
            title: self.title@,
            description: match self.description {
                Some(d) => Some(d@),
                None => None,
            },
            completed: self.completed,
            created_at: self.created_at as int,
            updated_at: self.updated_at as int,
        }
    }
}

impl Clone for Todo {
    fn clone(&self) -> (r: Self)
        ensures
            r@ == self@,
    {
        Todo {
            id: self.id.clone(),
            title: self.title.clone(),
            description: match &self.description {
                Some(d) => Some(d.clone()),
                None => None,
            },
            completed: self.completed,
            created_at: self.created_at,
            updated_at: self.updated_at,
        }
    }
}

/// The modification time after a mutation observed at wall-clock time
/// `now`: the new time is `now` when the clock has moved past the old
/// value, and otherwise the smallest later instant that still fits in
/// the representation, so that repeated mutations never move the time
/// backwards.
pub open spec fn spec_touch(updated_at: int, now: int) -> int {
    if now > updated_at {
        now
    } else if updated_at < i64::MAX {
        updated_at + 1
    } else {
        updated_at
    }
}

/// The model of marking a task completed at time `now`.
pub open spec fn spec_complete(t: TaskView, now: int) -> TaskView {
    TaskView { completed: true, updated_at: spec_touch(t.updated_at, now), ..t }
}

/// The model of marking a task not completed at time `now`.
pub open spec fn spec_uncomplete(t: TaskView, now: int) -> TaskView {
    TaskView { completed: false, updated_at: spec_touch(t.updated_at, now), ..t }
}

/// The model of rewriting title and description at time `now`: a
/// `Some` argument overwrites the field, a `None` argument keeps it.
pub open spec fn spec_edit(
    t: TaskView,
    title: Option<Seq<char>>,
    description: Option<Seq<char>>,
    now: int,
) -> TaskView {
    TaskView {
        title: match title {
            Some(s) => s,
            None => t.title,
        },
        description: match description {
            Some(s) => Some(s),
            None => t.description,
        },
        updated_at: spec_touch(t.updated_at, now),
        ..t
    }
}

/// The view of an optional owned string.
pub open spec fn opt_text_view(s: Option<String>) -> Option<Seq<char>> {
    match s {
        Some(t) => Some(t@),
        None => None,
    }
}

/// A white-space character: the Unicode White_Space set, the set that
/// trimming strips.
pub open spec fn is_space_char(c: char) -> bool {
    ||| c as u32 == 0x20
    ||| (0x09 <= c as u32 && c as u32 <= 0x0D)
    ||| c as u32 == 0x85
    ||| c as u32 == 0xA0
    ||| c as u32 == 0x1680
    ||| (0x2000 <= c as u32 && c as u32 <= 0x200A)
    ||| c as u32 == 0x2028
    ||| c as u32 == 0x2029
    ||| c as u32 == 0x202F
    ||| c as u32 == 0x205F
    ||| c as u32 == 0x3000
}

/// Text with its leading white space stripped.
pub open spec fn spec_trim_front(s: Seq<char>) -> Seq<char>
    decreases s.len(),
{
    if s.len() == 0 {
        s
    } else if is_space_char(s[0]) {
        spec_trim_front(s.drop_first())
    } else {
        s
    }
}

/// Text with its trailing white space stripped.
pub open spec fn spec_trim_back(s: Seq<char>) -> Seq<char>
    decreases s.len(),
{
    if s.len() == 0 {
        s
    } else if is_space_char(s.last()) {
        spec_trim_back(s.drop_last())
    } else {
        s
    }
}

/// Text with leading and trailing white space stripped.
pub open spec fn spec_trim(s: Seq<char>) -> Seq<char> {
    spec_trim_back(spec_trim_front(s))
}

/// Relies on uuid::Uuid::new_v4 and the Display form of uuid::Uuid:
/// a freshly drawn random identifier rendered in the 36-character
/// hyphenated format. Nothing is assumed beyond the length: the value
/// depends on the random draw.
#[verifier::external_body]
pub(crate) fn fresh_id() -> (r: String)
    ensures
        r@.len() == 36,
{
    uuid::Uuid::new_v4().to_string()
}

/// Relies on chrono::Utc::now: the current wall-clock time in
/// milliseconds since the Unix epoch. Nothing is assumed of the
/// value, which depends on the clock.
#[verifier::external_body]
fn now_timestamp() -> i64 {
    chrono::Utc::now().timestamp_millis()
}

impl Todo {
    /// Create a task with a fresh identifier, stamped with the
    /// current time.
    pub fn new(title: String, description: Option<String>) -> (r: Self)
        ensures
            r@.id.len() == 36,
            r@.title == title@,
            r@.description == opt_text_view(description),
            !r@.completed,
            r@.created_at == r@.updated_at,
    {
        let now = now_timestamp();
        Todo {
            id: fresh_id(),
            title,
            description,
            completed: false,
            created_at: now,
            updated_at: now,
        }
    }

    /// Move the modification time forward for a mutation observed at
    /// time `now`.
    fn touch(&mut self, now: i64)
        ensures
            final(self)@ == (TaskView {
                updated_at: spec_touch(old(self)@.updated_at, now as int),
                ..old(self)@
            }),
    {
        if now > self.updated_at {
            self.updated_at = now;
        } else if self.updated_at < i64::MAX {
            self.updated_at = self.updated_at + 1;
        }
    }

    /// Mark the task completed, for a mutation observed at time `now`.
    pub fn complete_at(&mut self, now: i64)
        ensures
            final(self)@ == spec_complete(old(self)@, now as int),
    {
        self.completed = true;
        self.touch(now);
    }

    /// Mark the task not completed, for a mutation observed at time
    /// `now`.
    pub fn uncomplete_at(&mut self, now: i64)
        ensures
            final(self)@ == spec_uncomplete(old(self)@, now as int),
    {
        self.completed = false;
        self.touch(now);
    }

    /// Rewrite title and description, for a mutation observed at time
    /// `now`: a `Some` argument overwrites the field, a `None`
    /// argument keeps it.
    pub fn update_at(&mut self, title: Option<String>, description: Option<String>, now: i64)
        ensures
            final(self)@ == spec_edit(
                old(self)@,
                opt_text_view(title),
                opt_text_view(description),
                now as int,
            ),
    {
        match title {
            Some(t) => {
                self.title = t;
            },
            None => {},
        }
        match description {
            Some(d) => {
                self.description = Some(d);
            },
            None => {},
        }
        self.touch(now);
    }

    /// Mark the task completed at the current wall-clock time.
    pub fn complete(&mut self)
        ensures
            final(self)@ == spec_complete(old(self)@, final(self)@.updated_at),
            final(self)@.updated_at >= old(self)@.updated_at,
            old(self).updated_at < i64::MAX ==> final(self)@.updated_at > old(self)@.updated_at,
    {
        let now = now_timestamp();
        self.complete_at(now);
        proof {
            touch_is_final(old(self)@.updated_at, now as int);
        }
    }

    /// Mark the task not completed at the current wall-clock time.
    pub fn uncomplete(&mut self)
        ensures
            final(self)@ == spec_uncomplete(old(self)@, final(self)@.updated_at),
            final(self)@.updated_at >= old(self)@.updated_at,
            old(self).updated_at < i64::MAX ==> final(self)@.updated_at > old(self)@.updated_at,
    {
        let now = now_timestamp();
        self.uncomplete_at(now);
        proof {
            touch_is_final(old(self)@.updated_at, now as int);
        }
    }

    /// Rewrite title and description at the current wall-clock time.
    pub fn update(&mut self, title: Option<String>, description: Option<String>)
        ensures
            final(self)@ == spec_edit(
                old(self)@,
                opt_text_view(title),
                opt_text_view(description),
                final(self)@.updated_at,
            ),
            final(self)@.updated_at >= old(self)@.updated_at,
            old(self).updated_at < i64::MAX ==> final(self)@.updated_at > old(self)@.updated_at,
    {
        let now = now_timestamp();
        self.update_at(title, description, now);
        proof {
            touch_is_final(old(self)@.updated_at, now as int);
        }
    }
}

/// The time produced by `spec_touch` is itself a fixed point of
/// `spec_touch` for the same pair, never moves backwards, and moves
/// strictly forward whenever the old time is below the
/// representation's ceiling.
proof fn touch_is_final(updated_at: int, now: int)
    ensures
        spec_touch(updated_at, spec_touch(updated_at, now)) == spec_touch(updated_at, now),
        spec_touch(updated_at, now) >= updated_at,
        updated_at < i64::MAX ==> spec_touch(updated_at, now) > updated_at,
{
}

/// Law: completing a task and then marking it not completed leaves it
/// not completed, strictly increases the modification time at each of
/// the two steps, and changes no other field. The two excluded
/// corner cases are a modification time within two ticks of the
/// representation's ceiling and a first observation at the ceiling
/// itself, where the time can no longer move strictly forward.
pub proof fn lemma_complete_then_uncomplete(t: TaskView, n1: int, n2: int)
    requires
        t.updated_at + 2 <= i64::MAX,
        n1 < i64::MAX,
    ensures
        spec_uncomplete(spec_complete(t, n1), n2).completed == false,
        spec_complete(t, n1).updated_at > t.updated_at,
        spec_uncomplete(spec_complete(t, n1), n2).updated_at > spec_complete(t, n1).updated_at,
        spec_uncomplete(spec_complete(t, n1), n2).id == t.id,
        spec_uncomplete(spec_complete(t, n1), n2).title == t.title,
        spec_uncomplete(spec_complete(t, n1), n2).description == t.description,
        spec_uncomplete(spec_complete(t, n1), n2).created_at == t.created_at,
{
}

} // verus!
