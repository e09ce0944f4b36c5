//! Snapshot-based undo/redo history.
//!
//! The history stores whole snapshots; with `Arc` snapshots pushing one is a
//! reference-count bump, and the data stays shared until a later commit
//! clones it.
use vstd::prelude::*;

verus! {

/// The past stack after pushing `state` and dropping the oldest entries
/// beyond `max_entries`.
pub open spec fn pushed_past<T>(past: Seq<T>, state: T, max_entries: nat) -> Seq<T> {
    let p = past.push(state);
    if p.len() > max_entries {
        p.subrange(p.len() - max_entries, p.len() as int)
    } else {
        p
    }
}

/// Undo on the abstract history `(past, future, max_entries)` with `current`
/// the present state: the history afterwards and the state to restore.
pub open spec fn undo_step<T>(h: (Seq<T>, Seq<T>, nat), current: T) -> ((Seq<T>, Seq<T>, nat), Option<T>) {
    if h.0.len() == 0 {
        (h, None)
    } else {
        ((h.0.drop_last(), h.1.push(current), h.2), Some(h.0.last()))
    }
}

/// Redo on the abstract history `(past, future, max_entries)` with `current`
/// the present state: the history afterwards and the state to restore.
pub open spec fn redo_step<T>(h: (Seq<T>, Seq<T>, nat), current: T) -> ((Seq<T>, Seq<T>, nat), Option<T>) {
    if h.1.len() == 0 {
        (h, None)
    } else {
        ((h.0.push(current), h.1.drop_last(), h.2), Some(h.1.last()))
    }
}

/// Snapshot-based undo/redo history.
pub struct UndoHistory<T> {
    /// Previous states, most recent last.
    past: Vec<T>,
    /// Undone states available for redo, most recent last.
    future: Vec<T>,
    /// Most undo entries kept.
    max_entries: usize,
}

impl<T> View for UndoHistory<T> {
    /// `(past, future, max_entries)`, each stack with its most recent state last.
    type V = (Seq<T>, Seq<T>, nat);

    closed spec fn view(&self) -> (Seq<T>, Seq<T>, nat) {
        (self.past@, self.future@, self.max_entries as nat)
    }
}

impl<T> UndoHistory<T> {
    /// Undo and redo entries together never exceed the capacity, which is at least one.
    #[verifier::type_invariant]
    spec fn within_capacity(self) -> bool {
        &&& self.max_entries >= 1
        &&& self.past@.len() + self.future@.len() <= self.max_entries
    }

    /// An empty history keeping at most `max(max_entries, 1)` undo entries.
    pub fn new(max_entries: usize) -> (h: Self)
        ensures
            h@.0 == Seq::<T>::empty(),
            h@.1 == Seq::<T>::empty(),
            h@.2 == if max_entries >= 1 {
                max_entries as nat
            } else {
                1
            },
    {
        let m = if max_entries >= 1 {
            max_entries
        } else {
            1
        };
        UndoHistory { past: Vec::new(), future: Vec::new(), max_entries: m }
    }

    /// Records the state before a new modification. The redo stack is
    /// cleared, and the oldest entries beyond the capacity are dropped.
    pub fn push(&mut self, state: T)
        ensures
            final(self)@ == (pushed_past(old(self)@.0, state, old(self)@.2), Seq::<T>::empty(), old(self)@.2),
            final(self)@.0.len() + final(self)@.1.len() <= final(self)@.2,
    {
        proof {
            use_type_invariant(&*self);
        }
        let mut taken = UndoHistory::new(1);
        std::mem::swap(&mut taken, self);
        let UndoHistory { mut past, future: _, max_entries } = taken;
        let ghost p = old(self)@.0.push(state);
        past.push(state);
        assert(past@ == p);
        if past.len() > max_entries {
            past.remove(0);
            assert(past@ =~= p.subrange(p.len() - max_entries, p.len() as int));
        }
        *self = UndoHistory { past, future: Vec::new(), max_entries };
    }

    /// Steps back: returns the most recent past state and stores `current`
    /// for redo, or returns `None` and changes nothing when there is nothing
    /// to undo.
    pub fn undo(&mut self, current: T) -> (r: Option<T>)
        ensures
            (final(self)@, r) == undo_step(old(self)@, current),
            final(self)@.0.len() + final(self)@.1.len() <= final(self)@.2,
    {
        proof {
            use_type_invariant(&*self);
        }
        let mut taken = UndoHistory::new(1);
        std::mem::swap(&mut taken, self);
        let UndoHistory { mut past, mut future, max_entries } = taken;
        let r = match past.pop() {
            Some(previous) => {
                future.push(current);
                Some(previous)
            },
            None => None,
        };
        *self = UndoHistory { past, future, max_entries };
        r
    }

    /// Steps forward: returns the most recently undone state and stores
    /// `current` for undo, or returns `None` and changes nothing when there
    /// is nothing to redo.
    pub fn redo(&mut self, current: T) -> (r: Option<T>)
        ensures
            (final(self)@, r) == redo_step(old(self)@, current),
            final(self)@.0.len() + final(self)@.1.len() <= final(self)@.2,
    {
        proof {
            use_type_invariant(&*self);
        }
        let mut taken = UndoHistory::new(1);
        std::mem::swap(&mut taken, self);
        let UndoHistory { mut past, mut future, max_entries } = taken;
        let r = match future.pop() {
            Some(next) => {
                past.push(current);
                Some(next)
            },
            None => None,
        };
        *self = UndoHistory { past, future, max_entries };
        r
    }

    pub fn can_undo(&self) -> (b: bool)
        ensures
            b == (self@.0.len() > 0),
    {
        !self.past.is_empty()
    }

    pub fn can_redo(&self) -> (b: bool)
        ensures
            b == (self@.1.len() > 0),
    {
        !self.future.is_empty()
    }

    /// Forgets every undo and redo entry; the capacity stays.
    pub fn clear(&mut self)
        ensures
            final(self)@ == (Seq::<T>::empty(), Seq::<T>::empty(), old(self)@.2),
    {
        proof {
            use_type_invariant(&*self);
        }
        let m = self.max_entries;
        *self = UndoHistory { past: Vec::new(), future: Vec::new(), max_entries: m };
    }

    /// Number of undo entries. Every history keeps at least one undo entry,
    /// and its undo and redo entries together never exceed its capacity.
    pub fn undo_count(&self) -> (n: usize)
        ensures
            n == self@.0.len(),
            self@.2 >= 1,
            self@.0.len() + self@.1.len() <= self@.2,
    {
        proof {
            use_type_invariant(self);
        }
        self.past.len()
    }

    /// Number of redo entries, within the capacity as for `undo_count`.
    pub fn redo_count(&self) -> (n: usize)
        ensures
            n == self@.1.len(),
            self@.2 >= 1,
            self@.0.len() + self@.1.len() <= self@.2,
    {
        proof {
            use_type_invariant(self);
        }
        self.future.len()
    }
}

/// Undoing and then redoing with the restored state gives back the state
/// that was current and leaves the history as it was.
pub proof fn lemma_undo_then_redo<T>(h: (Seq<T>, Seq<T>, nat), current: T)
    requires
        h.0.len() > 0,
    ensures
        ({
            let (h1, restored) = undo_step(h, current);
            &&& restored == Some(h.0.last())
            &&& redo_step(h1, restored.unwrap()) == (h, Some(current))
        }),
{
    let (h1, restored) = undo_step(h, current);
    assert(h1.0.push(h.0.last()) =~= h.0);
    assert(h1.1.drop_last() =~= h.1);
}

/// Redoing and then undoing with the restored state gives back the state
/// that was current and leaves the history as it was.
pub proof fn lemma_redo_then_undo<T>(h: (Seq<T>, Seq<T>, nat), current: T)
    requires
        h.1.len() > 0,
    ensures
        ({
            let (h1, restored) = redo_step(h, current);
            &&& restored == Some(h.1.last())
            &&& undo_step(h1, restored.unwrap()) == (h, Some(current))
        }),
{
    let (h1, restored) = redo_step(h, current);
    assert(h1.1.push(h.1.last()) =~= h.1);
    assert(h1.0.drop_last() =~= h.0);
}

/// After a push the newest undo entry is the pushed state, so the next undo
/// gives it back; nothing can be redone, and the undo stack holds
/// `min(n + 1, max_entries)` entries where `n` is the count before.
pub proof fn lemma_push_effect<T>(past: Seq<T>, state: T, max_entries: nat, current: T)
    requires
        max_entries >= 1,
        past.len() <= max_entries,
    ensures
        pushed_past(past, state, max_entries).last() == state,
        undo_step((pushed_past(past, state, max_entries), Seq::<T>::empty(), max_entries), current).1
            == Some(state),
        pushed_past(past, state, max_entries).len() == if past.len() + 1 <= max_entries {
            past.len() + 1
        } else {
            max_entries
        },
{
}

} // verus!
