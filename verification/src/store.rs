//! The store: two ordered collections of records, with the mutation
//! operations the surrounding program drives.

use vstd::prelude::*;
use crate::entities::{Note, NoteV, TodoItem, TodoV, todo_toggled};
use crate::ext::{current_ts, valid_ts};

verus! {

/// The in-memory store: all notes and all checklist items, each in insertion
/// order.
pub struct AppData {
    pub notes: Vec<Note>,
    pub todos: Vec<TodoItem>,
}

/// The mathematical model of the store: the two sequences of record models.
pub ghost struct StoreV {
    pub notes: Seq<NoteV>,
    pub todos: Seq<TodoV>,
}

impl StoreV {
    /// The store that a fresh start yields: no records at all.
    pub open spec fn empty() -> StoreV {
        StoreV { notes: Seq::empty(), todos: Seq::empty() }
    }

    /// Every record's timestamps are representable.
    pub open spec fn ts_ok(self) -> bool {
        &&& forall|i: int| 0 <= i < self.notes.len() ==> (#[trigger] self.notes[i]).wf()
        &&& forall|i: int| 0 <= i < self.todos.len() ==> (#[trigger] self.todos[i]).wf()
    }

    /// No two notes and no two items share an identifier.
    pub open spec fn ids_unique(self) -> bool {
        &&& forall|i: int, j: int|
            0 <= i < j < self.notes.len() ==> (#[trigger] self.notes[i]).id != (
            #[trigger] self.notes[j]).id
        &&& forall|i: int, j: int|
            0 <= i < j < self.todos.len() ==> (#[trigger] self.todos[i]).id != (
            #[trigger] self.todos[j]).id
    }

    /// The store's invariant: representable timestamps and unique
    /// identifiers.
    pub open spec fn wf(self) -> bool {
        self.ts_ok() && self.ids_unique()
    }

    /// Whether some note carries the identifier.
    pub open spec fn has_note_id(self, id: u128) -> bool {
        exists|i: int| 0 <= i < self.notes.len() && (#[trigger] self.notes[i]).id == id
    }

    /// Whether some checklist item carries the identifier.
    pub open spec fn has_todo_id(self, id: u128) -> bool {
        exists|i: int| 0 <= i < self.todos.len() && (#[trigger] self.todos[i]).id == id
    }
}

pub open spec fn notes_view(v: Seq<Note>) -> Seq<NoteV> {
    Seq::new(v.len(), |i: int| v[i]@)
}

pub open spec fn todos_view(v: Seq<TodoItem>) -> Seq<TodoV> {
    Seq::new(v.len(), |i: int| v[i]@)
}

impl View for AppData {
    type V = StoreV;

    open spec fn view(&self) -> StoreV {
        StoreV { notes: notes_view(self.notes@), todos: todos_view(self.todos@) }
    }
}

impl Default for AppData {
    /// The empty store.
    fn default() -> (r: AppData)
        ensures
            r@ == StoreV::empty(),
    {
        let r = AppData { notes: Vec::new(), todos: Vec::new() };
        proof {
            assert(r@.notes =~= Seq::<NoteV>::empty());
            assert(r@.todos =~= Seq::<TodoV>::empty());
        }
        r
    }
}

/// The position of the first item carrying `id`, or a negative value where
/// none does.
pub open spec fn todo_index_of(ts: Seq<TodoV>, id: u128) -> int
    decreases ts.len(),
{
    if ts.len() == 0 {
        -1
    } else if ts[0].id == id {
        0
    } else if todo_index_of(ts.drop_first(), id) < 0 {
        -1
    } else {
        todo_index_of(ts.drop_first(), id) + 1
    }
}

/// What the position of the first match means: a negative result says no
/// item carries the identifier; otherwise the result points at the first
/// item that does.
pub proof fn lemma_todo_index_of(ts: Seq<TodoV>, id: u128)
    ensures
        todo_index_of(ts, id) < 0 ==> forall|i: int|
            0 <= i < ts.len() ==> (#[trigger] ts[i]).id != id,
        todo_index_of(ts, id) >= 0 ==> {
            &&& todo_index_of(ts, id) < ts.len()
            &&& ts[todo_index_of(ts, id)].id == id
            &&& forall|i: int| 0 <= i < todo_index_of(ts, id) ==> (#[trigger] ts[i]).id != id
        },
    decreases ts.len(),
{
    if ts.len() == 0 {
    } else if ts[0].id == id {
    } else {
        lemma_todo_index_of(ts.drop_first(), id);
        assert forall|i: int| 1 <= i < ts.len() implies ts[i] == ts.drop_first()[i - 1] by {}
    }
}

/// The store after `toggle_todo` at instant `now`: the first item carrying
/// `id` toggled, everything else untouched; the whole store untouched where
/// no item carries `id`.
pub open spec fn store_toggled(s: StoreV, id: u128, now: i64) -> StoreV {
    let idx = todo_index_of(s.todos, id);
    if idx < 0 {
        s
    } else {
        StoreV { todos: s.todos.update(idx, todo_toggled(s.todos[idx], now)), ..s }
    }
}

impl AppData {
    /// Appends the note at the end of the notes sequence; the items are
    /// untouched. Freshness of the identifier is the caller's duty: the
    /// identifier-uniqueness invariant survives exactly when the new note's
    /// identifier is not yet present.
    pub fn add_note(&mut self, note: Note)
        ensures
            final(self)@.notes == old(self)@.notes.push(note@),
            final(self)@.todos == old(self)@.todos,
            old(self)@.wf() && note@.wf() && !old(self)@.has_note_id(note@.id)
                ==> final(self)@.wf(),
    {
        self.notes.push(note);
        proof {
            assert(final(self)@.notes =~= old(self)@.notes.push(note@));
            assert(final(self)@.todos =~= old(self)@.todos);
            if old(self)@.wf() && note@.wf() && !old(self)@.has_note_id(note@.id) {
                let s = final(self)@;
                assert forall|i: int, j: int| 0 <= i < j < s.notes.len() implies (
                #[trigger] s.notes[i]).id != (#[trigger] s.notes[j]).id by {
                    if j == s.notes.len() - 1 {
                        assert(old(self)@.notes[i] == s.notes[i]);
                        assert(!old(self)@.has_note_id(note@.id));
                    }
                }
            }
        }
    }

    /// Appends the checklist item at the end of the items sequence; the
    /// notes are untouched. Freshness of the identifier is the caller's
    /// duty, as for notes.
    pub fn add_todo(&mut self, todo: TodoItem)
        ensures
            final(self)@.todos == old(self)@.todos.push(todo@),
            final(self)@.notes == old(self)@.notes,
            old(self)@.wf() && todo@.wf() && !old(self)@.has_todo_id(todo@.id)
                ==> final(self)@.wf(),
    {
        self.todos.push(todo);
        proof {
            assert(final(self)@.todos =~= old(self)@.todos.push(todo@));
            assert(final(self)@.notes =~= old(self)@.notes);
            if old(self)@.wf() && todo@.wf() && !old(self)@.has_todo_id(todo@.id) {
                let s = final(self)@;
                assert forall|i: int, j: int| 0 <= i < j < s.todos.len() implies (
                #[trigger] s.todos[i]).id != (#[trigger] s.todos[j]).id by {
                    if j == s.todos.len() - 1 {
                        assert(old(self)@.todos[i] == s.todos[i]);
                        assert(!old(self)@.has_todo_id(todo@.id));
                    }
                }
            }
        }
    }

    /// Drops every note carrying `id`; a miss leaves the store untouched.
    pub fn remove_note(&mut self, id: u128)
        ensures
            final(self)@.notes == old(self)@.notes.filter(|n: NoteV| n.id != id),
            final(self)@.todos == old(self)@.todos,
            old(self)@.wf() ==> final(self)@.wf(),
    {
        let ghost pred = |n: NoteV| n.id != id;
        let mut kept: Vec<Note> = Vec::new();
        let n = self.notes.len();
        let mut i: usize = 0;
        proof {
            assert(old(self)@.notes.take(0).filter(pred) =~= Seq::<NoteV>::empty());
            assert(notes_view(kept@) =~= Seq::<NoteV>::empty());
        }
        #[verifier::loop_isolation(false)]
        while i < n
            invariant
                i <= n,
                self == old(self),
                notes_view(kept@) == old(self)@.notes.take(i as int).filter(pred),
            decreases n - i,
        {
            let ghost prev = old(self)@.notes.take(i as int).filter(pred);
            let ghost kept0 = kept@;
            let ghost x = old(self)@.notes[i as int];
            if self.notes[i].id != id {
                kept.push(self.notes[i].clone());
            }
            proof {
                let t1 = old(self)@.notes.take(i as int + 1);
                assert(t1.drop_last() =~= old(self)@.notes.take(i as int));
                assert(t1.last() == x);
                reveal(Seq::filter);
                assert(notes_view(kept0) == prev);
                if pred(x) {
                    assert(kept@.len() == kept0.len() + 1);
                    assert(kept@[kept0.len() as int]@ == x);
                    assert(notes_view(kept@) =~= prev.push(x));
                    assert(t1.filter(pred) == prev.push(x));
                } else {
                    assert(kept@ == kept0);
                    assert(notes_view(kept@) =~= prev);
                    assert(t1.filter(pred) == prev);
                }
                assert(notes_view(kept@) == t1.filter(pred));
            }
            i = i + 1;
        }
        proof {
            assert(old(self)@.notes.take(n as int) =~= old(self)@.notes);
        }
        self.notes = kept;
        proof {
            assert(final(self)@.todos =~= old(self)@.todos);
            if old(self)@.wf() {
                lemma_ops_preserve_wf(old(self)@, id, 0);
                assert(final(self)@ == StoreV { notes: old(self)@.notes.filter(pred), ..old(self)@ });
            }
        }
    }

    /// Drops every checklist item carrying `id`; a miss leaves the store
    /// untouched.
    pub fn remove_todo(&mut self, id: u128)
        ensures
            final(self)@.todos == old(self)@.todos.filter(|t: TodoV| t.id != id),
            final(self)@.notes == old(self)@.notes,
            old(self)@.wf() ==> final(self)@.wf(),
    {
        let ghost pred = |t: TodoV| t.id != id;
        let mut kept: Vec<TodoItem> = Vec::new();
        let n = self.todos.len();
        let mut i: usize = 0;
        proof {
            assert(old(self)@.todos.take(0).filter(pred) =~= Seq::<TodoV>::empty());
            assert(todos_view(kept@) =~= Seq::<TodoV>::empty());
        }
        #[verifier::loop_isolation(false)]
        while i < n
            invariant
                i <= n,
                self == old(self),
                todos_view(kept@) == old(self)@.todos.take(i as int).filter(pred),
            decreases n - i,
        {
            let ghost prev = old(self)@.todos.take(i as int).filter(pred);
            let ghost kept0 = kept@;
            let ghost x = old(self)@.todos[i as int];
            if self.todos[i].id != id {
                kept.push(self.todos[i].clone());
            }
            proof {
                let t1 = old(self)@.todos.take(i as int + 1);
                assert(t1.drop_last() =~= old(self)@.todos.take(i as int));
                assert(t1.last() == x);
                reveal(Seq::filter);
                assert(todos_view(kept0) == prev);
                if pred(x) {
                    assert(kept@.len() == kept0.len() + 1);
                    assert(kept@[kept0.len() as int]@ == x);
                    assert(todos_view(kept@) =~= prev.push(x));
                    assert(t1.filter(pred) == prev.push(x));
                } else {
                    assert(kept@ == kept0);
                    assert(todos_view(kept@) =~= prev);
                    assert(t1.filter(pred) == prev);
                }
                assert(todos_view(kept@) == t1.filter(pred));
            }
            i = i + 1;
        }
        proof {
            assert(old(self)@.todos.take(n as int) =~= old(self)@.todos);
        }
        self.todos = kept;
        proof {
            assert(final(self)@.notes =~= old(self)@.notes);
            if old(self)@.wf() {
                lemma_ops_preserve_wf(old(self)@, id, 0);
                assert(final(self)@ == StoreV { todos: old(self)@.todos.filter(pred), ..old(self)@ });
            }
        }
    }

    /// Toggles the first checklist item carrying `id`, stamping the
    /// transition with the given instant; a miss leaves the store untouched.
    pub fn toggle_todo_at(&mut self, id: u128, now: i64)
        requires
            valid_ts(now),
        ensures
            final(self)@ == store_toggled(old(self)@, id, now),
            old(self)@.wf() ==> final(self)@.wf(),
    {
        proof {
            if old(self)@.wf() {
                lemma_ops_preserve_wf(old(self)@, id, now);
            }
        }
        let n = self.todos.len();
        let mut i: usize = 0;
        #[verifier::loop_isolation(false)]
        while i < n
            invariant
                i <= n,
                self == old(self),
                forall|k: int| 0 <= k < i ==> (#[trigger] old(self)@.todos[k]).id != id,
            decreases n - i,
        {
            if self.todos[i].id == id {
                proof {
                    lemma_todo_index_of(old(self)@.todos, id);
                    assert(old(self)@.todos[i as int].id == id);
                    assert(todo_index_of(old(self)@.todos, id) == i as int);
                }
                let item = &mut self.todos[i];
                item.toggle_completed_at(now);
                proof {
                    let s0 = old(self)@;
                    assert(final(self)@.todos =~= s0.todos.update(
                        i as int,
                        todo_toggled(s0.todos[i as int], now),
                    ));
                    assert(final(self)@.notes =~= s0.notes);
                }
                return ;
            }
            i = i + 1;
        }
        proof {
            lemma_todo_index_of(old(self)@.todos, id);
            assert(old(self)@.todos.take(n as int) =~= old(self)@.todos);
            assert(todo_index_of(old(self)@.todos, id) < 0) by {
                if todo_index_of(old(self)@.todos, id) >= 0 {
                    assert(old(self)@.todos[todo_index_of(old(self)@.todos, id)].id == id);
                }
            }
        }
    }

    /// Toggles the first checklist item carrying `id`, stamping the
    /// transition with the current clock reading; a miss leaves the store
    /// untouched.
    pub fn toggle_todo(&mut self, id: u128)
        ensures
            exists|now: i64|
                valid_ts(now) && final(self)@ == store_toggled(old(self)@, id, now),
            !old(self)@.has_todo_id(id) ==> final(self)@ == old(self)@,
            old(self)@.wf() ==> final(self)@.wf(),
    {
        let now: i64 = current_ts();
        self.toggle_todo_at(id, now);
        proof {
            if !old(self)@.has_todo_id(id) {
                lemma_todo_index_of(old(self)@.todos, id);
                if todo_index_of(old(self)@.todos, id) >= 0 {
                    assert(old(self)@.has_todo_id(id));
                }
            }
        }
    }
}

/// Miss operations are no-ops: removing a note or toggling an item by an
/// identifier that no record carries leaves the store's sequences exactly as
/// they were.
pub proof fn lemma_miss_is_noop(s: StoreV, id: u128, now: i64)
    requires
        !s.has_note_id(id),
        !s.has_todo_id(id),
    ensures
        s.notes.filter(|n: NoteV| n.id != id) == s.notes,
        s.todos.filter(|t: TodoV| t.id != id) == s.todos,
        store_toggled(s, id, now) == s,
{
    lemma_filter_all_notes(s.notes, |n: NoteV| n.id != id);
    lemma_filter_all_todos(s.todos, |t: TodoV| t.id != id);
    lemma_todo_index_of(s.todos, id);
    if todo_index_of(s.todos, id) >= 0 {
        assert(s.has_todo_id(id));
    }
}

/// Filtering notes keeps every survivor a member of the original sequence,
/// and keeps distinct identifiers distinct.
pub proof fn lemma_filter_notes_unique(s: Seq<NoteV>, pred: spec_fn(NoteV) -> bool)
    requires
        forall|i: int, j: int|
            0 <= i < j < s.len() ==> (#[trigger] s[i]).id != (#[trigger] s[j]).id,
    ensures
        forall|i: int|
            0 <= i < s.filter(pred).len() ==> exists|j: int|
                0 <= j < s.len() && #[trigger] s.filter(pred)[i] == s[j],
        forall|i: int, j: int|
            0 <= i < j < s.filter(pred).len() ==> (#[trigger] s.filter(pred)[i]).id != (
            #[trigger] s.filter(pred)[j]).id,
    decreases s.len(),
{
    reveal(Seq::filter);
    if s.len() == 0 {
    } else {
        let dl = s.drop_last();
        assert forall|i: int, j: int|
            0 <= i < j < dl.len() implies (#[trigger] dl[i]).id != (#[trigger] dl[j]).id by {
            assert(dl[i] == s[i] && dl[j] == s[j]);
        }
        lemma_filter_notes_unique(dl, pred);
        let out = s.filter(pred);
        let sub = dl.filter(pred);
        assert forall|i: int|
            0 <= i < out.len() implies exists|j: int| 0 <= j < s.len() && #[trigger] out[i]
            == s[j] by {
            if pred(s.last()) && i == out.len() - 1 {
                assert(out[i] == s[s.len() - 1]);
            } else {
                assert(out[i] == sub[i]);
                let j = choose|j: int| 0 <= j < dl.len() && sub[i] == dl[j];
                assert(out[i] == s[j]);
            }
        }
        assert forall|i: int, j: int|
            0 <= i < j < out.len() implies (#[trigger] out[i]).id != (#[trigger] out[j]).id by {
            if pred(s.last()) && j == out.len() - 1 {
                assert(out[i] == sub[i]);
                let k = choose|k: int| 0 <= k < dl.len() && sub[i] == dl[k];
                assert(s[k].id != s[s.len() - 1].id);
            } else {
                assert(out[i] == sub[i] && out[j] == sub[j]);
            }
        }
    }
}

/// Filtering checklist items keeps every survivor a member of the original
/// sequence, and keeps distinct identifiers distinct.
pub proof fn lemma_filter_todos_unique(s: Seq<TodoV>, pred: spec_fn(TodoV) -> bool)
    requires
        forall|i: int, j: int|
            0 <= i < j < s.len() ==> (#[trigger] s[i]).id != (#[trigger] s[j]).id,
    ensures
        forall|i: int|
            0 <= i < s.filter(pred).len() ==> exists|j: int|
                0 <= j < s.len() && #[trigger] s.filter(pred)[i] == s[j],
        forall|i: int, j: int|
            0 <= i < j < s.filter(pred).len() ==> (#[trigger] s.filter(pred)[i]).id != (
            #[trigger] s.filter(pred)[j]).id,
    decreases s.len(),
{
    reveal(Seq::filter);
    if s.len() == 0 {
    } else {
        let dl = s.drop_last();
        assert forall|i: int, j: int|
            0 <= i < j < dl.len() implies (#[trigger] dl[i]).id != (#[trigger] dl[j]).id by {
            assert(dl[i] == s[i] && dl[j] == s[j]);
        }
        lemma_filter_todos_unique(dl, pred);
        let out = s.filter(pred);
        let sub = dl.filter(pred);
        assert forall|i: int|
            0 <= i < out.len() implies exists|j: int| 0 <= j < s.len() && #[trigger] out[i]
            == s[j] by {
            if pred(s.last()) && i == out.len() - 1 {
                assert(out[i] == s[s.len() - 1]);
            } else {
                assert(out[i] == sub[i]);
                let j = choose|j: int| 0 <= j < dl.len() && sub[i] == dl[j];
                assert(out[i] == s[j]);
            }
        }
        assert forall|i: int, j: int|
            0 <= i < j < out.len() implies (#[trigger] out[i]).id != (#[trigger] out[j]).id by {
            if pred(s.last()) && j == out.len() - 1 {
                assert(out[i] == sub[i]);
                let k = choose|k: int| 0 <= k < dl.len() && sub[i] == dl[k];
                assert(s[k].id != s[s.len() - 1].id);
            } else {
                assert(out[i] == sub[i] && out[j] == sub[j]);
            }
        }
    }
}

/// The store invariant survives every removal and every toggle: dropping
/// records cannot duplicate an identifier or damage a timestamp, and a
/// toggle at a representable instant keeps the toggled record well formed.
pub proof fn lemma_ops_preserve_wf(s: StoreV, id: u128, now: i64)
    requires
        s.wf(),
        valid_ts(now),
    ensures
        (StoreV { notes: s.notes.filter(|n: NoteV| n.id != id), ..s }).wf(),
        (StoreV { todos: s.todos.filter(|t: TodoV| t.id != id), ..s }).wf(),
        store_toggled(s, id, now).wf(),
{
    lemma_filter_notes_unique(s.notes, |n: NoteV| n.id != id);
    lemma_filter_todos_unique(s.todos, |t: TodoV| t.id != id);
    let fn_ = s.notes.filter(|n: NoteV| n.id != id);
    assert forall|i: int| 0 <= i < fn_.len() implies (#[trigger] fn_[i]).wf() by {
        let j = choose|j: int| 0 <= j < s.notes.len() && fn_[i] == s.notes[j];
        assert(s.notes[j].wf());
    }
    let ft = s.todos.filter(|t: TodoV| t.id != id);
    assert forall|i: int| 0 <= i < ft.len() implies (#[trigger] ft[i]).wf() by {
        let j = choose|j: int| 0 <= j < s.todos.len() && ft[i] == s.todos[j];
        assert(s.todos[j].wf());
    }
    let idx = todo_index_of(s.todos, id);
    lemma_todo_index_of(s.todos, id);
    if idx >= 0 {
        let st = store_toggled(s, id, now);
        assert(st.todos[idx] == todo_toggled(s.todos[idx], now));
        assert forall|i: int| 0 <= i < st.todos.len() implies (#[trigger] st.todos[i]).wf() by {
            if i != idx {
                assert(st.todos[i] == s.todos[i]);
            }
        }
        assert forall|i: int, j: int|
            0 <= i < j < st.todos.len() implies (#[trigger] st.todos[i]).id != (
        #[trigger] st.todos[j]).id by {
            assert(st.todos[i].id == s.todos[i].id && st.todos[j].id == s.todos[j].id);
        }
    }
}

/// Filtering with a predicate that every note satisfies keeps the sequence
/// intact.
pub proof fn lemma_filter_all_notes(s: Seq<NoteV>, pred: spec_fn(NoteV) -> bool)
    requires
        forall|i: int| 0 <= i < s.len() ==> pred(#[trigger] s[i]),
    ensures
        s.filter(pred) == s,
    decreases s.len(),
{
    reveal(Seq::filter);
    if s.len() == 0 {
        assert(s.filter(pred) =~= s);
    } else {
        lemma_filter_all_notes(s.drop_last(), pred);
        assert(pred(s.last()));
        assert(s.drop_last().push(s.last()) =~= s);
    }
}

/// Filtering with a predicate that every item satisfies keeps the sequence
/// intact.
pub proof fn lemma_filter_all_todos(s: Seq<TodoV>, pred: spec_fn(TodoV) -> bool)
    requires
        forall|i: int| 0 <= i < s.len() ==> pred(#[trigger] s[i]),
    ensures
        s.filter(pred) == s,
    decreases s.len(),
{
    reveal(Seq::filter);
    if s.len() == 0 {
        assert(s.filter(pred) =~= s);
    } else {
        lemma_filter_all_todos(s.drop_last(), pred);
        assert(pred(s.last()));
        assert(s.drop_last().push(s.last()) =~= s);
    }
}

} // verus!
