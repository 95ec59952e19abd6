//! In-memory persistence service for tasks: rows ordered newest
//! first, identifiers unique, with create, point lookup, update,
//! delete and filtered listing.

use crate::models::{TaskView, Todo};
use vstd::prelude::*;
use vstd::string::StrSliceExecFns;
use vstd::string::StringExecFns;

verus! {

/// Failures of the persistence service.
#[derive(Debug, Clone, Copy, PartialEq, Eq, Structural)]
pub enum StorageError {
    /// The backing store could not be opened or created.
    Connection,
    /// A single operation failed.
    Query,
    /// A row with the same identifier already exists.
    Conflict,
}

/// The views of a sequence of task records.
pub open spec fn task_views(s: Seq<Todo>) -> Seq<TaskView> {
    s.map_values(|t: Todo| t@)
}

/// No two rows share an identifier.
pub open spec fn unique_ids(s: Seq<TaskView>) -> bool {
    forall|i: int, j: int|
        0 <= i < j < s.len() ==> (#[trigger] s[i]).id != (#[trigger] s[j]).id
}

/// Rows are ordered by creation time, newest first.
pub open spec fn sorted_newest_first(s: Seq<TaskView>) -> bool {
    forall|i: int, j: int|
        0 <= i <= j < s.len() ==> (#[trigger] s[i]).created_at >= (#[trigger] s[j]).created_at
}

/// Some row bears the identifier.
pub open spec fn contains_id(s: Seq<TaskView>, id: Seq<char>) -> bool {
    exists|i: int| 0 <= i < s.len() && (#[trigger] s[i]).id == id
}

/// The model of insertion: the new row goes in front of the first row
/// that is no newer, so a row created later than another is listed
/// before it, and so are ties.
pub open spec fn spec_insert(s: Seq<TaskView>, t: TaskView) -> Seq<TaskView>
    decreases s.len(),
{
    if s.len() == 0 {
        seq![t]
    } else if s[0].created_at <= t.created_at {
        seq![t] + s
    } else {
        seq![s[0]] + spec_insert(s.drop_first(), t)
    }
}

/// The model of overwriting a row: title, description, completion
/// flag and modification time come from the update, identifier and
/// creation time stay.
pub open spec fn spec_overwrite(u: TaskView, t: TaskView) -> TaskView {
    TaskView {
        title: t.title,
        description: t.description,
        completed: t.completed,
        updated_at: t.updated_at,
        ..u
    }
}

/// The model of an update: every row bearing the identifier is
/// overwritten, every other row stays.
pub open spec fn spec_update(s: Seq<TaskView>, t: TaskView) -> Seq<TaskView> {
    s.map_values(|u: TaskView| if u.id == t.id { spec_overwrite(u, t) } else { u })
}

/// The predicate kept by a deletion: rows not bearing the identifier.
pub open spec fn keeps_id(id: Seq<char>) -> spec_fn(TaskView) -> bool {
    |u: TaskView| u.id != id
}

/// The model of a deletion: every row bearing the identifier leaves.
pub open spec fn spec_remove(s: Seq<TaskView>, id: Seq<char>) -> Seq<TaskView> {
    s.filter(keeps_id(id))
}

/// The predicate of a filtered listing.
pub open spec fn status_pred(completed: bool) -> spec_fn(TaskView) -> bool {
    |u: TaskView| u.completed == completed
}

/// The model of a filtered listing: rows with the given completion
/// flag, in stored order.
pub open spec fn by_status(s: Seq<TaskView>, completed: bool) -> Seq<TaskView> {
    s.filter(status_pred(completed))
}

/// Filtering distributes over appending one element.
proof fn lemma_filter_push<A>(s: Seq<A>, x: A, pred: spec_fn(A) -> bool)
    ensures
        s.push(x).filter(pred) == (if pred(x) {
            s.filter(pred).push(x)
        } else {
            s.filter(pred)
        }),
{
    reveal(Seq::filter);
    assert(s.push(x).drop_last() =~= s);
    assert(s.push(x).last() == x);
}

/// An element is in a filtered sequence exactly when it is in the
/// sequence and satisfies the predicate.
proof fn lemma_filter_mem<A>(s: Seq<A>, pred: spec_fn(A) -> bool)
    ensures
        forall|x: A| #[trigger] s.filter(pred).contains(x) <==> s.contains(x) && pred(x),
    decreases s.len(),
{
    reveal(Seq::filter);
    if s.len() > 0 {
        lemma_filter_mem(s.drop_last(), pred);
        lemma_filter_push(s.drop_last(), s.last(), pred);
        assert(s.drop_last().push(s.last()) =~= s);
        assert forall|x: A| s.contains(x) && pred(x) implies #[trigger] s.filter(pred).contains(
            x,
        ) by {
            let i = choose|i: int| 0 <= i < s.len() && s[i] == x;
            if i < s.len() - 1 {
                assert(s.drop_last()[i] == x);
                assert(s.drop_last().contains(x));
                assert(s.drop_last().filter(pred).contains(x));
                let j = choose|j: int|
                    0 <= j < s.drop_last().filter(pred).len() && s.drop_last().filter(pred)[j]
                        == x;
                assert(s.filter(pred)[j] == x);
            } else {
                assert(x == s.last());
                assert(s.filter(pred).last() == x);
            }
        }
        assert forall|x: A| #[trigger] s.filter(pred).contains(x) implies s.contains(x) && pred(
            x,
        ) by {
            let f = s.filter(pred);
            let j = choose|j: int| 0 <= j < f.len() && f[j] == x;
            if pred(s.last()) && j == f.len() - 1 {
                assert(x == s.last());
                assert(s.contains(x));
            } else {
                assert(s.drop_last().filter(pred)[j] == x);
                assert(s.drop_last().filter(pred).contains(x));
                assert(s.drop_last().contains(x));
                let i = choose|i: int| 0 <= i < s.drop_last().len() && s.drop_last()[i] == x;
                assert(s[i] == x);
            }
        }
    } else {
        assert(s.filter(pred) =~= Seq::<A>::empty());
    }
}

/// Filtering keeps a sequence unchanged when every element satisfies
/// the predicate.
proof fn lemma_filter_all<A>(s: Seq<A>, pred: spec_fn(A) -> bool)
    requires
        forall|i: int| 0 <= i < s.len() ==> pred(#[trigger] s[i]),
    ensures
        s.filter(pred) == s,
    decreases s.len(),
{
    reveal(Seq::filter);
    if s.len() > 0 {
        lemma_filter_all(s.drop_last(), pred);
        lemma_filter_push(s.drop_last(), s.last(), pred);
        assert(s.drop_last().push(s.last()) =~= s);
    } else {
        assert(s.filter(pred) =~= s);
    }
}

/// Filtering keeps the newest-first ordering.
proof fn lemma_filter_sorted(s: Seq<TaskView>, pred: spec_fn(TaskView) -> bool)
    requires
        sorted_newest_first(s),
    ensures
        sorted_newest_first(s.filter(pred)),
    decreases s.len(),
{
    reveal(Seq::filter);
    if s.len() > 0 {
        assert forall|i: int, j: int|
            0 <= i <= j < s.drop_last().len() implies (#[trigger] s.drop_last()[i]).created_at
            >= (#[trigger] s.drop_last()[j]).created_at by {
            assert(s.drop_last()[i] == s[i] && s.drop_last()[j] == s[j]);
        }
        lemma_filter_sorted(s.drop_last(), pred);
        lemma_filter_push(s.drop_last(), s.last(), pred);
        assert(s.drop_last().push(s.last()) =~= s);
        if pred(s.last()) {
            let f0 = s.drop_last().filter(pred);
            let f = f0.push(s.last());
            lemma_filter_mem(s.drop_last(), pred);
            assert forall|a: int, b: int|
                0 <= a <= b < f.len() implies (#[trigger] f[a]).created_at >= (
            #[trigger] f[b]).created_at by {
                if b == f0.len() {
                    if a < f0.len() {
                        let u = f0[a];
                        assert(f0.contains(u));
                        assert(s.drop_last().contains(u));
                        let k = choose|k: int|
                            0 <= k < s.drop_last().len() && s.drop_last()[k] == u;
                        assert(s[k] == u);
                        assert(s[k].created_at >= s[s.len() - 1].created_at);
                    }
                } else {
                    assert(f[a] == f0[a] && f[b] == f0[b]);
                }
            }
        }
    }
}

/// An identifier is present exactly when some contained row bears it.
proof fn lemma_contains_id_iff(s: Seq<TaskView>, x: Seq<char>)
    ensures
        contains_id(s, x) <==> exists|u: TaskView| #[trigger] s.contains(u) && u.id == x,
{
    if contains_id(s, x) {
        let i = choose|i: int| 0 <= i < s.len() && (#[trigger] s[i]).id == x;
        assert(s.contains(s[i]) && s[i].id == x);
    }
    if exists|u: TaskView| #[trigger] s.contains(u) && u.id == x {
        let u = choose|u: TaskView| #[trigger] s.contains(u) && u.id == x;
        let i = choose|i: int| 0 <= i < s.len() && s[i] == u;
        assert((#[trigger] s[i]).id == x);
    }
}

/// Removing the single row bearing an identifier is the removal of
/// its index.
proof fn lemma_remove_at(s: Seq<TaskView>, id: Seq<char>, i: int)
    requires
        unique_ids(s),
        0 <= i < s.len(),
        s[i].id == id,
    ensures
        spec_remove(s, id) == s.remove(i),
    decreases s.len(),
{
    reveal(Seq::filter);
    let pred = keeps_id(id);
    lemma_filter_push(s.drop_last(), s.last(), pred);
    assert(s.drop_last().push(s.last()) =~= s);
    if i == s.len() - 1 {
        assert(!pred(s.last()));
        lemma_filter_all(s.drop_last(), pred);
        assert(s.remove(i) =~= s.drop_last());
    } else {
        assert(pred(s.last()));
        lemma_remove_at(s.drop_last(), id, i);
        assert(s.remove(i) =~= s.drop_last().remove(i).push(s.last()));
    }
}

/// Removing one row keeps the ordering and the uniqueness of
/// identifiers.
proof fn lemma_remove_keeps_wf(s: Seq<TaskView>, i: int)
    requires
        sorted_newest_first(s),
        unique_ids(s),
        0 <= i < s.len(),
    ensures
        sorted_newest_first(s.remove(i)),
        unique_ids(s.remove(i)),
{
    s.remove_ensures(i);
    let r = s.remove(i);
    assert forall|a: int, b: int| 0 <= a <= b < r.len() implies (#[trigger] r[a]).created_at >= (
    #[trigger] r[b]).created_at by {
        let a2: int = if a < i { a } else { a + 1 };
        let b2: int = if b < i { b } else { b + 1 };
        assert(r[a] == s[a2]);
        assert(r[b] == s[b2]);
    }
    assert forall|a: int, b: int| 0 <= a < b < r.len() implies (#[trigger] r[a]).id != (
    #[trigger] r[b]).id by {
        let a2: int = if a < i { a } else { a + 1 };
        let b2: int = if b < i { b } else { b + 1 };
        assert(r[a] == s[a2]);
        assert(r[b] == s[b2]);
    }
}

/// The model of insertion grows the sequence by the new row, keeps
/// exactly the old rows beside it, keeps the ordering, and keeps
/// identifiers unique when the new one is fresh.
proof fn lemma_spec_insert_props(s: Seq<TaskView>, t: TaskView)
    requires
        sorted_newest_first(s),
    ensures
        spec_insert(s, t).len() == s.len() + 1,
        forall|u: TaskView| #[trigger] spec_insert(s, t).contains(u) <==> (s.contains(u) || u
            == t),
        sorted_newest_first(spec_insert(s, t)),
        unique_ids(s) && !contains_id(s, t.id) ==> unique_ids(spec_insert(s, t)),
    decreases s.len(),
{
    let r = spec_insert(s, t);
    if s.len() == 0 {
        assert forall|u: TaskView| #[trigger] r.contains(u) <==> (s.contains(u) || u == t) by {
            assert(r[0] == t);
            if s.contains(u) {
                let i = choose|i: int| 0 <= i < s.len() && s[i] == u;
            }
        }
    } else if s[0].created_at <= t.created_at {
        assert(r == seq![t] + s);
        assert forall|u: TaskView| #[trigger] r.contains(u) <==> (s.contains(u) || u == t) by {
            if r.contains(u) {
                let i = choose|i: int| 0 <= i < r.len() && r[i] == u;
                if i > 0 {
                    assert(s[i - 1] == u);
                }
            }
            if s.contains(u) {
                let i = choose|i: int| 0 <= i < s.len() && s[i] == u;
                assert(r[i + 1] == u);
            }
            if u == t {
                assert(r[0] == u);
            }
        }
        assert forall|a: int, b: int| 0 <= a <= b < r.len() implies (#[trigger] r[a]).created_at
            >= (#[trigger] r[b]).created_at by {
            if a == 0 && b > 0 {
                assert(r[b] == s[b - 1]);
                assert(s[0].created_at >= s[b - 1].created_at);
            }
            if a > 0 {
                assert(r[a] == s[a - 1] && r[b] == s[b - 1]);
            }
        }
        if unique_ids(s) && !contains_id(s, t.id) {
            assert forall|a: int, b: int| 0 <= a < b < r.len() implies (#[trigger] r[a]).id != (
            #[trigger] r[b]).id by {
                if a == 0 {
                    assert(r[b] == s[b - 1]);
                    assert(s[b - 1].id != t.id);
                } else {
                    assert(r[a] == s[a - 1] && r[b] == s[b - 1]);
                }
            }
        }
    } else {
        let rest = s.drop_first();
        let rr = spec_insert(rest, t);
        lemma_spec_insert_props(rest, t);
        assert(r == seq![s[0]] + rr);
        if contains_id(rest, t.id) {
            let i = choose|i: int| 0 <= i < rest.len() && (#[trigger] rest[i]).id == t.id;
            assert(s[i + 1] == rest[i]);
            assert(contains_id(s, t.id));
        }
        assert forall|u: TaskView| #[trigger] r.contains(u) <==> (s.contains(u) || u == t) by {
            if r.contains(u) {
                let i = choose|i: int| 0 <= i < r.len() && r[i] == u;
                if i == 0 {
                    assert(s[0] == u);
                } else {
                    assert(rr[i - 1] == u);
                    assert(rr.contains(u));
                    if rest.contains(u) {
                        let k = choose|k: int| 0 <= k < rest.len() && rest[k] == u;
                        assert(s[k + 1] == u);
                    }
                }
            }
            if s.contains(u) {
                let i = choose|i: int| 0 <= i < s.len() && s[i] == u;
                if i == 0 {
                    assert(r[0] == u);
                } else {
                    assert(rest[i - 1] == u);
                    assert(rest.contains(u));
                    assert(rr.contains(u));
                    let k = choose|k: int| 0 <= k < rr.len() && rr[k] == u;
                    assert(r[k + 1] == u);
                }
            }
            if u == t {
                assert(rr.contains(u));
                let k = choose|k: int| 0 <= k < rr.len() && rr[k] == u;
                assert(r[k + 1] == u);
            }
        }
        assert forall|a: int, b: int| 0 <= a <= b < r.len() implies (#[trigger] r[a]).created_at
            >= (#[trigger] r[b]).created_at by {
            if a == 0 && b > 0 {
                let u = rr[b - 1];
                assert(rr.contains(u));
                if rest.contains(u) {
                    let k = choose|k: int| 0 <= k < rest.len() && rest[k] == u;
                    assert(s[k + 1] == u);
                    assert(s[0].created_at >= u.created_at);
                } else {
                    assert(u == t);
                }
                assert(r[b] == u);
            }
            if a > 0 {
                assert(r[a] == rr[a - 1] && r[b] == rr[b - 1]);
            }
        }
        if unique_ids(s) && !contains_id(s, t.id) {
            assert forall|a: int, b: int| 0 <= a < b < rest.len() implies (
            #[trigger] rest[a]).id != (#[trigger] rest[b]).id by {
                assert(rest[a] == s[a + 1] && rest[b] == s[b + 1]);
            }
            assert(unique_ids(rest));
            assert(unique_ids(rr));
            assert forall|a: int, b: int| 0 <= a < b < r.len() implies (#[trigger] r[a]).id != (
            #[trigger] r[b]).id by {
                if a == 0 {
                    let u = rr[b - 1];
                    assert(rr.contains(u));
                    if rest.contains(u) {
                        let k = choose|k: int| 0 <= k < rest.len() && rest[k] == u;
                        assert(s[k + 1] == u);
                        assert(s[0].id != u.id);
                    } else {
                        assert(u == t);
                        assert(s[0].id != t.id);
                    }
                    assert(r[b] == u);
                } else {
                    assert(r[a] == rr[a - 1] && r[b] == rr[b - 1]);
                }
            }
        }
    }
}

/// The model of insertion at the first index holding a row no newer
/// than the new one is the positional insertion there.
proof fn lemma_spec_insert_position(s: Seq<TaskView>, t: TaskView, p: int)
    requires
        0 <= p <= s.len(),
        forall|j: int| 0 <= j < p ==> (#[trigger] s[j]).created_at > t.created_at,
        p < s.len() ==> s[p].created_at <= t.created_at,
    ensures
        spec_insert(s, t) == s.insert(p, t),
    decreases p,
{
    if p == 0 {
        if s.len() == 0 {
            assert(spec_insert(s, t) =~= s.insert(0, t));
        } else {
            assert(seq![t] + s =~= s.insert(0, t));
        }
    } else {
        let rest = s.drop_first();
        assert forall|j: int| 0 <= j < p - 1 implies (#[trigger] rest[j]).created_at
            > t.created_at by {
            assert(rest[j] == s[j + 1]);
        }
        assert(p - 1 < rest.len() ==> rest[p - 1].created_at <= t.created_at);
        lemma_spec_insert_position(rest, t, p - 1);
        assert(s[0].created_at > t.created_at);
        assert(seq![s[0]] + rest.insert(p - 1, t) =~= s.insert(p, t));
    }
}

/// Law: a created row is found again under its identifier, equal in
/// every field, and no other row bears that identifier.
pub proof fn lemma_create_then_get(s: Seq<TaskView>, t: TaskView)
    requires
        sorted_newest_first(s),
        unique_ids(s),
        !contains_id(s, t.id),
    ensures
        spec_insert(s, t).contains(t),
        contains_id(spec_insert(s, t), t.id),
        forall|u: TaskView| #[trigger] spec_insert(s, t).contains(u) && u.id == t.id ==> u == t,
{
    lemma_spec_insert_props(s, t);
    lemma_contains_id_iff(s, t.id);
    lemma_contains_id_iff(spec_insert(s, t), t.id);
    assert forall|u: TaskView| #[trigger] spec_insert(s, t).contains(u) && u.id == t.id implies u
        == t by {
        if s.contains(u) {
            assert(exists|v: TaskView| #[trigger] s.contains(v) && v.id == t.id);
        }
    }
}

/// Law: the completed listing and the pending listing together hold,
/// as sets, exactly the rows of the full listing.
pub proof fn lemma_status_lists_partition(s: Seq<TaskView>)
    ensures
        by_status(s, true).to_set().union(by_status(s, false).to_set()) == s.to_set(),
{
    lemma_filter_mem(s, status_pred(true));
    lemma_filter_mem(s, status_pred(false));
    assert forall|u: TaskView|
        by_status(s, true).to_set().union(by_status(s, false).to_set()).contains(u)
            <==> #[trigger] s.to_set().contains(u) by {
        if s.contains(u) {
            if u.completed {
                assert(by_status(s, true).contains(u));
            } else {
                assert(by_status(s, false).contains(u));
            }
        }
    }
    assert(by_status(s, true).to_set().union(by_status(s, false).to_set()) =~= s.to_set());
}

/// The model of inserting a whole run of rows, one after the other.
pub open spec fn spec_insert_all(s: Seq<TaskView>, ts: Seq<TaskView>) -> Seq<TaskView>
    decreases ts.len(),
{
    if ts.len() == 0 {
        s
    } else {
        spec_insert_all(spec_insert(s, ts[0]), ts.drop_first())
    }
}

/// Inserting a row no older than every stored row puts it first.
proof fn lemma_insert_newest(s: Seq<TaskView>, t: TaskView)
    requires
        forall|k: int| 0 <= k < s.len() ==> (#[trigger] s[k]).created_at <= t.created_at,
    ensures
        spec_insert(s, t) == seq![t] + s,
{
    if s.len() == 0 {
        assert(seq![t] =~= seq![t] + s);
    }
}

proof fn lemma_insert_all_general(s: Seq<TaskView>, ts: Seq<TaskView>)
    requires
        forall|i: int, k: int|
            0 <= i < ts.len() && 0 <= k < s.len() ==> (#[trigger] ts[i]).created_at >= (
            #[trigger] s[k]).created_at,
        forall|i: int, j: int|
            0 <= i <= j < ts.len() ==> (#[trigger] ts[i]).created_at <= (
            #[trigger] ts[j]).created_at,
    ensures
        spec_insert_all(s, ts) == ts.reverse() + s,
    decreases ts.len(),
{
    if ts.len() == 0 {
        assert(ts.reverse() + s =~= s);
    } else {
        lemma_insert_newest(s, ts[0]);
        let s1 = seq![ts[0]] + s;
        let rest = ts.drop_first();
        assert forall|i: int, k: int|
            0 <= i < rest.len() && 0 <= k < s1.len() implies (#[trigger] rest[i]).created_at >= (
        #[trigger] s1[k]).created_at by {
            assert(rest[i] == ts[i + 1]);
            if k == 0 {
                assert(s1[k] == ts[0]);
            } else {
                assert(s1[k] == s[k - 1]);
            }
        }
        assert forall|i: int, j: int|
            0 <= i <= j < rest.len() implies (#[trigger] rest[i]).created_at <= (
        #[trigger] rest[j]).created_at by {
            assert(rest[i] == ts[i + 1] && rest[j] == ts[j + 1]);
        }
        lemma_insert_all_general(s1, rest);
        assert(rest.reverse() + s1 =~= ts.reverse() + s);
    }
}

/// Law: rows created one after the other, each no older than those
/// before it, are listed newest first — the reverse of the order in
/// which they were inserted.
pub proof fn lemma_inserts_list_in_reverse(ts: Seq<TaskView>)
    requires
        forall|i: int, j: int|
            0 <= i <= j < ts.len() ==> (#[trigger] ts[i]).created_at <= (
            #[trigger] ts[j]).created_at,
    ensures
        spec_insert_all(Seq::<TaskView>::empty(), ts) == ts.reverse(),
{
    lemma_insert_all_general(Seq::<TaskView>::empty(), ts);
    assert(ts.reverse() + Seq::<TaskView>::empty() =~= ts.reverse());
}

/// The model of storage-location normalization: the in-memory marker
/// becomes the in-memory scheme, an explicit scheme URI stays as it
/// is, and a bare file path becomes a read-write-create URI.
pub open spec fn spec_normalized(s: Seq<char>) -> Seq<char> {
    if s == ":memory:"@ {
        "sqlite::memory:"@
    } else if s.len() >= 9 && s.subrange(0, 9) == "sqlite://"@ {
        s
    } else {
        "sqlite://"@ + s + "?mode=rwc"@
    }
}

/// Whether the text begins with the given prefix.
fn has_prefix(s: &str, p: &str) -> (r: bool)
    ensures
        r == (s@.len() >= p@.len() && s@.subrange(0, p@.len() as int) == p@),
{
    let np = p.unicode_len();
    let ns = s.unicode_len();
    if ns < np {
        return false;
    }
    let mut i: usize = 0;
    while i < np
        invariant
            ns == s@.len(),
            np == p@.len(),
            np <= ns,
            i <= np,
            forall|j: int| 0 <= j < i ==> s@[j] == p@[j],
        decreases np - i,
    {
        if s.get_char(i) != p.get_char(i) {
            proof {
                assert(s@.subrange(0, np as int)[i as int] == s@[i as int]);
            }
            return false;
        }
        i += 1;
    }
    proof {
        assert(s@.subrange(0, np as int) =~= p@);
    }
    true
}

/// Turn a storage-location string into the URI handed to the store:
/// the in-memory marker becomes the in-memory scheme, an explicit
/// scheme URI stays, and a bare file path becomes a read-write-create
/// URI.
pub fn normalize_database_url(path: &str) -> (r: String)
    ensures
        r@ == spec_normalized(path@),
{
    proof {
        reveal_strlit("sqlite://");
    }
    let owned: String = path.to_owned();
    let marker: String = ":memory:".to_owned();
    if owned == marker {
        return "sqlite::memory:".to_owned();
    }
    if has_prefix(path, "sqlite://") {
        return owned;
    }
    let mut out: String = "sqlite://".to_owned();
    out.append(path);
    out.append("?mode=rwc");
    out
}

/// The persistence service: rows held in memory, ordered newest
/// first, with unique identifiers.
#[derive(Debug)]
pub struct TodoDatabase {
    tasks: Vec<Todo>,
}

impl View for TodoDatabase {
    type V = Seq<TaskView>;

    closed spec fn view(&self) -> Seq<TaskView> {
        task_views(self.tasks@)
    }
}

impl TodoDatabase {
    /// The service invariant: ordering and identifier uniqueness.
    pub open spec fn wf(&self) -> bool {
        sorted_newest_first(self@) && unique_ids(self@)
    }

    /// Create an empty service.
    pub fn new() -> (r: Self)
        ensures
            r@ == Seq::<TaskView>::empty(),
            r.wf(),
    {
        let r = TodoDatabase { tasks: Vec::new() };
        proof {
            assert(r@ =~= Seq::<TaskView>::empty());
        }
        r
    }

    /// The index of the first row bearing the identifier, if any.
    fn position_of(&self, id: &String) -> (r: Option<usize>)
        ensures
            match r {
                Some(i) => i < self@.len() && self@[i as int].id == id@ && (forall|j: int|
                    0 <= j < i ==> (#[trigger] self@[j]).id != id@),
                None => !contains_id(self@, id@),
            },
    {
        let mut i: usize = 0;
        while i < self.tasks.len()
            invariant
                i <= self.tasks@.len(),
                forall|j: int| 0 <= j < i ==> (#[trigger] self@[j]).id != id@,
            decreases self.tasks@.len() - i,
        {
            if self.tasks[i].id == *id {
                assert(self@[i as int].id == id@);
                return Some(i);
            }
            i += 1;
        }
        None
    }

    /// Insert a new row; an identifier that is already present is a
    /// conflict and changes nothing.
    pub fn create_todo(&mut self, todo: &Todo) -> (r: Result<(), StorageError>)
        requires
            old(self).wf(),
        ensures
            final(self).wf(),
            !contains_id(old(self)@, todo@.id) ==> r == Ok::<(), StorageError>(())
                && final(self)@ == spec_insert(old(self)@, todo@),
            contains_id(old(self)@, todo@.id) ==> r == Err::<(), StorageError>(
                StorageError::Conflict,
            ) && final(self)@ == old(self)@,
    {
        if self.position_of(&todo.id).is_some() {
            return Err(StorageError::Conflict);
        }
        let ghost s0 = self@;
        let p = self.insert_position(todo.created_at);
        let row = todo.clone();
        let ghost rowg = row;
        let ghost t0 = self.tasks@;
        self.tasks.insert(p, row);
        proof {
            t0.insert_ensures(p as int, rowg);
            s0.insert_ensures(p as int, todo@);
            assert forall|k: int| 0 <= k < self@.len() implies self@[k] == s0.insert(
                p as int,
                todo@,
            )[k] by {
                assert(self@[k] == self.tasks@[k]@);
            }
            assert(self@ =~= s0.insert(p as int, todo@));
            lemma_spec_insert_position(s0, todo@, p as int);
            lemma_spec_insert_props(s0, todo@);
        }
        Ok(())
    }

    /// The index in front of which a row with the given creation time
    /// is inserted: the first index holding a row no newer.
    fn insert_position(&self, created_at: i64) -> (p: usize)
        ensures
            p <= self@.len(),
            forall|j: int| 0 <= j < p ==> (#[trigger] self@[j]).created_at > created_at as int,
            p < self@.len() ==> self@[p as int].created_at <= created_at as int,
    {
        let mut p: usize = 0;
        while p < self.tasks.len()
            invariant
                p <= self.tasks@.len(),
                forall|j: int| 0 <= j < p ==> (#[trigger] self@[j]).created_at > created_at as int,
            decreases self.tasks@.len() - p,
        {
            if self.tasks[p].created_at <= created_at {
                return p;
            }
            p += 1;
        }
        p
    }

    /// Point lookup: the row bearing the identifier, or absence —
    /// absence is not an error.
    pub fn get_todo(&self, id: &str) -> (r: Option<Todo>)
        ensures
            (r is Some) <==> contains_id(self@, id@),
            (r matches Some(t) ==> self@.contains(t@) && t@.id == id@),
    {
        let key: String = id.to_owned();
        match self.position_of(&key) {
            Some(i) => {
                let t = self.tasks[i].clone();
                proof {
                    assert(self@[i as int] == t@);
                }
                Some(t)
            },
            None => None,
        }
    }

    /// Overwrite title, description, completion flag and modification
    /// time of the row matching the task's identifier, keeping its
    /// creation time; the count of affected rows is returned, and
    /// zero is not an error.
    pub fn update_todo(&mut self, todo: &Todo) -> (r: usize)
        requires
            old(self).wf(),
        ensures
            final(self).wf(),
            final(self)@ == spec_update(old(self)@, todo@),
            r == (if contains_id(old(self)@, todo@.id) {
                1usize
            } else {
                0usize
            }),
    {
        let ghost s0 = self@;
        match self.position_of(&todo.id) {
            Some(i) => {
                let row = Todo {
                    id: todo.id.clone(),
                    title: todo.title.clone(),
                    description: match &todo.description {
                        Some(d) => Some(d.clone()),
                        None => None,
                    },
                    completed: todo.completed,
                    created_at: self.tasks[i].created_at,
                    updated_at: todo.updated_at,
                };
                proof {
                    assert(row@ == spec_overwrite(s0[i as int], todo@));
                }
                self.tasks[i] = row;
                proof {
                    assert forall|k: int| 0 <= k < self@.len() implies self@[k] == spec_update(
                        s0,
                        todo@,
                    )[k] by {
                        assert(self@[k] == self.tasks@[k]@);
                        if k != i {
                            assert(s0[k].id != todo@.id);
                        }
                    }
                    assert(self@ =~= spec_update(s0, todo@));
                }
                1
            },
            None => {
                proof {
                    assert forall|k: int| 0 <= k < self@.len() implies self@[k] == spec_update(
                        s0,
                        todo@,
                    )[k] by {
                        assert(s0[k].id != todo@.id);
                    }
                    assert(self@ =~= spec_update(s0, todo@));
                }
                0
            },
        }
    }

    /// Remove the row bearing the identifier; the count of affected
    /// rows is returned, and zero is not an error.
    pub fn delete_todo(&mut self, id: &str) -> (r: usize)
        requires
            old(self).wf(),
        ensures
            final(self).wf(),
            final(self)@ == spec_remove(old(self)@, id@),
            r == (if contains_id(old(self)@, id@) {
                1usize
            } else {
                0usize
            }),
    {
        let ghost s0 = self@;
        let key: String = id.to_owned();
        match self.position_of(&key) {
            Some(i) => {
                let ghost t0 = self.tasks@;
                self.tasks.remove(i);
                proof {
                    t0.remove_ensures(i as int);
                    s0.remove_ensures(i as int);
                    assert forall|k: int| 0 <= k < self@.len() implies self@[k] == s0.remove(
                        i as int,
                    )[k] by {
                        assert(self@[k] == self.tasks@[k]@);
                    }
                    assert(self@ =~= s0.remove(i as int));
                    lemma_remove_at(s0, id@, i as int);
                    lemma_remove_keeps_wf(s0, i as int);
                }
                1
            },
            None => {
                proof {
                    lemma_contains_id_iff(s0, id@);
                    assert forall|k: int| 0 <= k < s0.len() implies keeps_id(id@)(
                        #[trigger] s0[k],
                    ) by {}
                    lemma_filter_all(s0, keeps_id(id@));
                }
                0
            },
        }
    }

    /// All rows, newest first.
    pub fn get_all_todos(&self) -> (r: Vec<Todo>)
        ensures
            task_views(r@) == self@,
            self.wf() ==> sorted_newest_first(task_views(r@)),
    {
        let mut out: Vec<Todo> = Vec::new();
        let mut i: usize = 0;
        while i < self.tasks.len()
            invariant
                i <= self.tasks@.len(),
                out@.len() == i,
                forall|j: int| 0 <= j < i ==> (#[trigger] out@[j])@ == self.tasks@[j]@,
            decreases self.tasks@.len() - i,
        {
            out.push(self.tasks[i].clone());
            i += 1;
        }
        proof {
            assert(task_views(out@) =~= self@);
        }
        out
    }

    /// Rows with the given completion flag, newest first.
    pub fn get_todos_by_status(&self, completed: bool) -> (r: Vec<Todo>)
        ensures
            task_views(r@) == by_status(self@, completed),
            self.wf() ==> sorted_newest_first(task_views(r@)),
    {
        proof {
            if self.wf() {
                lemma_filter_sorted(self@, status_pred(completed));
            }
        }
        let mut out: Vec<Todo> = Vec::new();
        let mut i: usize = 0;
        proof {
            reveal(Seq::filter);
            assert(self@.take(0) =~= Seq::<TaskView>::empty());
            assert(task_views(out@) =~= Seq::<TaskView>::empty());
        }
        while i < self.tasks.len()
            invariant
                i <= self.tasks@.len(),
                task_views(out@) == self@.take(i as int).filter(status_pred(completed)),
            decreases self.tasks@.len() - i,
        {
            let ghost pre = self@.take(i as int);
            let ghost out0 = task_views(out@);
            if self.tasks[i].completed == completed {
                out.push(self.tasks[i].clone());
                proof {
                    assert(task_views(out@) =~= out0.push(self@[i as int]));
                }
            }
            proof {
                lemma_filter_push(pre, self@[i as int], status_pred(completed));
                assert(self@.take(i as int + 1) =~= pre.push(self@[i as int]));
            }
            i += 1;
        }
        proof {
            assert(self@.take(self.tasks@.len() as int) =~= self@);
        }
        out
    }
}

} // verus!
