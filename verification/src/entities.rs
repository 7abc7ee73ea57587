//! The two record kinds the store keeps: free-form notes and checklist items.
//! Each carries a unique identifier and timestamps that its mutation methods
//! keep consistent.

use vstd::prelude::*;
use crate::ext::{current_ts, fresh_uuid, valid_ts};

verus! {

/// A free-form note.
pub struct Note {
    pub id: u128,
    pub title: String,
    pub content: String,
    pub created_at: i64,
    pub updated_at: i64,
}

/// The mathematical model of a [`Note`].
pub ghost struct NoteV {
    pub id: u128,
    pub title: Seq<char>,
    pub content: Seq<char>,
    pub created_at: i64,
    pub updated_at: i64,
}

impl NoteV {
    /// Both timestamps lie in the representable range.
    pub open spec fn wf(self) -> bool {
        valid_ts(self.created_at) && valid_ts(self.updated_at)
    }
}

impl View for Note {
    type V = NoteV;

    open spec fn view(&self) -> NoteV {
        NoteV {
            id: self.id,
            title: self.title@,
            content: self.content@,
            created_at: self.created_at,
            updated_at: self.updated_at,
        }
    }
}

impl Clone for Note {
    fn clone(&self) -> (r: Self)
        ensures
            r@ == self@,
    {
        Note {
            id: self.id,
            title: self.title.clone(),
            content: self.content.clone(),
            created_at: self.created_at,
            updated_at: self.updated_at,
        }
    }
}

/// The note that `update` leaves behind: both text fields replaced, the
/// update timestamp set to `now`, identity and creation time untouched.
pub open spec fn note_updated(n: NoteV, title: Seq<char>, content: Seq<char>, now: i64) -> NoteV {
    NoteV { title: title, content: content, updated_at: now, ..n }
}

impl Note {
    /// A fresh note: a newly drawn identifier, both timestamps equal to the
    /// clock reading at construction. Title and content are unconstrained.
    pub fn new(title: String, content: String) -> (r: Note)
        ensures
            r@.title == title@,
            r@.content == content@,
            r@.created_at == r@.updated_at,
            r@.wf(),
    {
        let now: i64 = current_ts();
        Note { id: fresh_uuid(), title, content, created_at: now, updated_at: now }
    }

    /// Replaces title and content and stamps the update with the given
    /// instant; identity and creation time stay as they were.
    pub fn update_at(&mut self, title: String, content: String, now: i64)
        requires
            valid_ts(now),
        ensures
            final(self)@ == note_updated(old(self)@, title@, content@, now),
    {
        self.title = title;
        self.content = content;
        self.updated_at = now;
    }

    /// Replaces title and content and stamps the update with the current
    /// clock reading.
    pub fn update(&mut self, title: String, content: String)
        ensures
            exists|now: i64|
                valid_ts(now) && final(self)@ == note_updated(old(self)@, title@, content@, now),
            final(self)@.title == title@,
            final(self)@.content == content@,
            final(self)@.id == old(self)@.id,
            final(self)@.created_at == old(self)@.created_at,
            valid_ts(final(self)@.updated_at),
    {
        let now: i64 = current_ts();
        self.update_at(title, content, now);
    }
}

/// A checklist item.
pub struct TodoItem {
    pub id: u128,
    pub text: String,
    pub completed: bool,
    pub created_at: i64,
    pub completed_at: Option<i64>,
}

/// The mathematical model of a [`TodoItem`].
pub ghost struct TodoV {
    pub id: u128,
    pub text: Seq<char>,
    pub completed: bool,
    pub created_at: i64,
    pub completed_at: Option<i64>,
}

impl TodoV {
    /// The creation time is representable, and the completion time is present
    /// if and only if the item is completed (and is representable itself).
    pub open spec fn wf(self) -> bool {
        valid_ts(self.created_at) && match self.completed_at {
            Some(t) => self.completed && valid_ts(t),
            None => !self.completed,
        }
    }
}

impl View for TodoItem {
    type V = TodoV;

    open spec fn view(&self) -> TodoV {
        TodoV {
            id: self.id,
            text: self.text@,
            completed: self.completed,
            created_at: self.created_at,
            completed_at: self.completed_at,
        }
    }
}

impl Clone for TodoItem {
    fn clone(&self) -> (r: Self)
        ensures
            r@ == self@,
    {
        TodoItem {
            id: self.id,
            text: self.text.clone(),
            completed: self.completed,
            created_at: self.created_at,
            completed_at: self.completed_at,
        }
    }
}

/// The item that one toggle at instant `now` leaves behind: completion
/// flipped; the completion time is `now` after the transition to completed
/// and absent after the transition back.
pub open spec fn todo_toggled(t: TodoV, now: i64) -> TodoV {
    TodoV {
        completed: !t.completed,
        completed_at: if !t.completed {
            Some(now)
        } else {
            None
        },
        ..t
    }
}

/// The item after a whole sequence of toggles, one instant per toggle.
pub open spec fn apply_toggles(t: TodoV, times: Seq<i64>) -> TodoV
    decreases times.len(),
{
    if times.len() == 0 {
        t
    } else {
        apply_toggles(todo_toggled(t, times[0]), times.drop_first())
    }
}

impl TodoItem {
    /// A fresh item: a newly drawn identifier, not completed, no completion
    /// time, created at the clock reading at construction.
    pub fn new(text: String) -> (r: TodoItem)
        ensures
            r@.text == text@,
            !r@.completed,
            r@.completed_at is None,
            r@.wf(),
    {
        TodoItem {
            id: fresh_uuid(),
            text,
            completed: false,
            created_at: current_ts(),
            completed_at: None,
        }
    }

    /// Flips completion, stamping the transition with the given instant.
    pub fn toggle_completed_at(&mut self, now: i64)
        requires
            valid_ts(now),
        ensures
            final(self)@ == todo_toggled(old(self)@, now),
    {
        self.completed = !self.completed;
        self.completed_at = if self.completed {
            Some(now)
        } else {
            None
        };
    }

    /// Flips completion, stamping the transition with the current clock
    /// reading.
    pub fn toggle_completed(&mut self)
        ensures
            exists|now: i64| valid_ts(now) && final(self)@ == todo_toggled(old(self)@, now),
            final(self)@.completed == !old(self)@.completed,
            final(self)@.id == old(self)@.id,
            final(self)@.text == old(self)@.text,
            final(self)@.created_at == old(self)@.created_at,
            final(self)@.completed_at is Some <==> final(self)@.completed,
            old(self)@.wf() ==> final(self)@.wf(),
    {
        let now: i64 = current_ts();
        self.toggle_completed_at(now);
    }
}

/// Toggling alternates completion: after an even number of toggles the item
/// is completed exactly as it began, after an odd number the opposite way;
/// whenever it ends completed after at least one toggle, the completion time
/// is the instant of the last toggle, and whenever it ends not completed it
/// carries no completion time.
pub proof fn lemma_toggle_alternates(t: TodoV, times: Seq<i64>)
    ensures
        apply_toggles(t, times).completed == if times.len() % 2 == 0 {
            t.completed
        } else {
            !t.completed
        },
        times.len() > 0 ==> apply_toggles(t, times).completed_at == if apply_toggles(
            t,
            times,
        ).completed {
            Some(times.last())
        } else {
            None::<i64>
        },
        apply_toggles(t, times).id == t.id,
        apply_toggles(t, times).text == t.text,
        apply_toggles(t, times).created_at == t.created_at,
    decreases times.len(),
{
    if times.len() == 0 {
    } else {
        lemma_toggle_alternates(todo_toggled(t, times[0]), times.drop_first());
        if times.len() == 1 {
            assert(times.drop_first().len() == 0);
            assert(times.last() == times[0]);
        } else {
            assert(times.drop_first().last() == times.last());
        }
    }
}

/// Updating a note replaces its title and content, keeps its identity and
/// creation time, and never moves the update timestamp backwards as long as
/// the clock instant is no earlier than the previous update.
pub proof fn lemma_update_fields(n: NoteV, title: Seq<char>, content: Seq<char>, now: i64)
    requires
        now >= n.updated_at,
    ensures
        note_updated(n, title, content, now).title == title,
        note_updated(n, title, content, now).content == content,
        note_updated(n, title, content, now).id == n.id,
        note_updated(n, title, content, now).created_at == n.created_at,
        note_updated(n, title, content, now).updated_at >= n.updated_at,
{
}

} // verus!
