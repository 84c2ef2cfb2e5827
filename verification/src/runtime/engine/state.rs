//! Reactive state: a copyable handle to a value that remembers which scopes
//! have read it. Reading subscribes the scope in charge; writing marks the
//! subscribers dirty, or the root scope when there are none.

use vstd::prelude::*;
use generational_box::{BorrowError, BorrowMutError, GenerationalBox, SyncStorage};
use crate::runtime::cells::StateId;
use crate::runtime::context::top_of;
use crate::runtime::engine::Runtime;
use crate::runtime::ids::ScopeId;
use crate::runtime::storage::{read_value, write_value};

verus! {

/// Why a state could not be used.
#[derive(Clone, Copy, Debug, PartialEq, Eq, Structural)]
pub enum StateError {
    /// The scope in which the state was created is gone, and the state with
    /// it.
    ScopeDropped,
    /// The value is in use elsewhere.
    Busy,
}

/// A handle to a reactive value. The handle can be copied freely; the value
/// lives in the arena of the scope that was topmost when the state was
/// created, or in the global arena when there was none.
#[verifier::reject_recursive_types(T)]
pub struct State<T: 'static> {
    id: StateId,
    slot: GenerationalBox<T, SyncStorage>,
}

impl<T: 'static> Clone for State<T> {
    fn clone(&self) -> (copy: Self)
        ensures
            copy == *self,
    {
        *self
    }
}

impl<T: 'static> Copy for State<T> {

}

/// The scopes that a write to a cell with the given subscribers marks dirty:
/// the subscribers, or the root scope where there are none.
pub open spec fn notified(subscribers: Set<ScopeId>) -> Set<ScopeId> {
    if subscribers == Set::<ScopeId>::empty() {
        set![ScopeId::root()]
    } else {
        subscribers
    }
}

/// The subscribers of `id` after a read under the scope stack `scopes`.
pub open spec fn after_read(
    subscribers: Map<StateId, Set<ScopeId>>,
    id: StateId,
    scopes: Seq<ScopeId>,
) -> Map<StateId, Set<ScopeId>> {
    if scopes.len() > 0 && subscribers.contains_key(id) {
        subscribers.insert(id, subscribers[id].insert(scopes.last()))
    } else {
        subscribers
    }
}

/// What a read hands to the caller, given what the storage answered.
pub open spec fn read_result<T>(outcome: Result<T, BorrowError>) -> Result<T, StateError> {
    match outcome {
        Ok(value) => Ok(value),
        Err(BorrowError::Dropped(_)) => Err(StateError::ScopeDropped),
        Err(BorrowError::AlreadyBorrowedMut(_)) => Err(StateError::Busy),
    }
}

/// What a write hands to the caller, given what the storage answered.
pub open spec fn write_result(outcome: Result<(), BorrowMutError>) -> Result<(), StateError> {
    match outcome {
        Ok(_) => Ok(()),
        Err(BorrowMutError::Dropped(_)) => Err(StateError::ScopeDropped),
        Err(BorrowMutError::AlreadyBorrowed(_)) => Err(StateError::Busy),
        Err(BorrowMutError::AlreadyBorrowedMut(_)) => Err(StateError::Busy),
    }
}

/// A scope that has read a cell is notified by the next write to it, and
/// then the root scope is notified only if it is itself a subscriber.
pub proof fn lemma_reader_is_notified(subscribers: Map<StateId, Set<ScopeId>>, id: StateId, scopes: Seq<ScopeId>)
    requires
        subscribers.contains_key(id),
        scopes.len() > 0,
    ensures
        notified(after_read(subscribers, id, scopes)[id]).contains(scopes.last()),
        notified(after_read(subscribers, id, scopes)[id]) == subscribers[id].insert(scopes.last()),
{
    let after = subscribers[id].insert(scopes.last());
    assert(after.contains(scopes.last()));
    assert(after != Set::<ScopeId>::empty());
}

/// A write marks nothing but the subscribers of the cell that is written: a
/// scope that has not read the cell, and was not dirty, is not dirty after
/// the write, as long as the cell has a subscriber.
pub proof fn lemma_only_subscribers_are_marked(dirty: Set<ScopeId>, subscribers: Set<ScopeId>, scope: ScopeId)
    requires
        subscribers != Set::<ScopeId>::empty(),
        !subscribers.contains(scope),
        !dirty.contains(scope),
    ensures
        !dirty.union(notified(subscribers)).contains(scope),
{
}

/// A write to a cell that nobody has read marks the root scope, and only
/// it.
pub proof fn lemma_unread_write_marks_root()
    ensures
        notified(Set::<ScopeId>::empty()) == set![ScopeId::root()],
{
}

/// What `f` makes of `value`: `f` is run once on it, and what it leaves is
/// returned.
pub fn changed_by<T, F: FnOnce(&mut T)>(value: T, f: F) -> (out: T)
    requires
        forall|v: &mut T| f.requires((v,)),
    ensures
        exists|v: &mut T| *v == value && #[trigger] f.ensures((v,), ()) && *final(v) == out,
{
    let mut value = value;
    f(&mut value);
    value
}

/// Turns the storage's answer to a read into the state's answer.
pub fn finish_read<T>(outcome: Result<T, BorrowError>) -> (result: Result<T, StateError>)
    ensures
        result == read_result(outcome),
{
    match outcome {
        Ok(value) => Ok(value),
        Err(BorrowError::Dropped(_)) => Err(StateError::ScopeDropped),
        Err(BorrowError::AlreadyBorrowedMut(_)) => Err(StateError::Busy),
    }
}

impl StateError {
    /// A short description of the error.
    pub fn message(&self) -> (text: String)
        ensures
            text@ == (match *self {
                StateError::ScopeDropped => "scope dropped"@,
                StateError::Busy => "state is in use"@,
            }),
    {
        match self {
            StateError::ScopeDropped => "scope dropped".to_string(),
            StateError::Busy => "state is in use".to_string(),
        }
    }
}

impl<C> Runtime<C> {
    /// Completes a write to the cell `id`, given what the storage answered.
    /// After a write that took place, every subscriber of the cell is marked
    /// dirty, or the root scope when the cell has none. After a write that
    /// was refused nothing is marked.
    pub fn finish_write(&mut self, id: StateId, outcome: Result<(), BorrowMutError>) -> (result: Result<
        (),
        StateError,
    >)
        requires
            old(self).cells().live(id),
        ensures
            result == write_result(outcome),
            final(self).same_but_dirty(old(self)),
            final(self).wf() == old(self).wf(),
            final(self).dirty() == (if outcome is Ok {
                old(self).dirty().union(notified(old(self).cells().subscribers()[id]))
            } else {
                old(self).dirty()
            }),
    {
        match outcome {
            Ok(_) => {
                self.notify_subscribers(id);
                Ok(())
            },
            Err(BorrowMutError::Dropped(_)) => Err(StateError::ScopeDropped),
            Err(BorrowMutError::AlreadyBorrowed(_)) => Err(StateError::Busy),
            Err(BorrowMutError::AlreadyBorrowedMut(_)) => Err(StateError::Busy),
        }
    }

    /// Marks every subscriber of the live cell `id` dirty, or the root scope
    /// when it has none.
    pub fn notify_subscribers(&mut self, id: StateId)
        requires
            old(self).cells().live(id),
        ensures
            final(self).same_but_dirty(old(self)),
            final(self).wf() == old(self).wf(),
            final(self).dirty() == old(self).dirty().union(
                notified(old(self).cells().subscribers()[id]),
            ),
    {
        let snapshot = self.cells.subscribers_of(id);
        let ghost subscribers = old(self).cells().subscribers()[id];
        if snapshot.len() == 0 {
            proof {
                assert(snapshot@.to_set() =~= Set::<ScopeId>::empty());
                assert(old(self).dirty().insert(ScopeId::root()) =~= old(self).dirty().union(
                    set![ScopeId::root()],
                ));
            }
            self.dirty.mark(ScopeId::root());
        } else {
            proof {
                assert(snapshot@.to_set().contains(snapshot@[0]));
                assert(snapshot@.take(0).to_set() =~= Set::<ScopeId>::empty());
                assert(old(self).dirty().union(Set::<ScopeId>::empty()) =~= old(self).dirty());
            }
            let mut i: usize = 0;
            while i < snapshot.len()
                invariant
                    i <= snapshot.len(),
                    self.same_but_dirty(old(self)),
                    self.wf() == old(self).wf(),
                    self.dirty() == old(self).dirty().union(snapshot@.take(i as int).to_set()),
                decreases snapshot.len() - i,
            {
                self.dirty.mark(snapshot[i]);
                proof {
                    snapshot@.take(i as int).lemma_push_to_set_commute(snapshot@[i as int]);
                    assert(snapshot@.take(i + 1) =~= snapshot@.take(i as int).push(snapshot@[i as int]));
                    assert(self.dirty() =~= old(self).dirty().union(snapshot@.take(i + 1).to_set()));
                }
                i = i + 1;
            }
            assert(snapshot@.take(i as int) =~= snapshot@);
        }
    }
}

impl<T: Clone + Send + Sync + 'static> State<T> {
    /// The identifier of the cell.
    pub closed spec fn id(&self) -> StateId {
        self.id
    }

    /// The identifier of the cell.
    pub fn state_id(&self) -> (id: StateId)
        ensures
            id == self.id(),
    {
        self.id
    }

    /// Creates a state that holds `value`. It belongs to the arena of the
    /// topmost scope, and to the global arena when no scope is entered. It
    /// has no subscribers.
    pub fn new<C>(rt: &mut Runtime<C>, value: T) -> (state: State<T>)
        requires
            old(rt).wf(),
            !old(rt).cells().exhausted(),
        ensures
            final(rt).wf(),
            state.id().0 == old(rt).cells().upcoming(),
            !old(rt).cells().live(state.id()),
            final(rt).cells().upcoming() == old(rt).cells().upcoming() + 1,
            final(rt).cells().arenas() == old(rt).cells().arenas().insert(
                state.id(),
                top_of(old(rt).context().scopes()),
            ),
            final(rt).cells().subscribers() == old(rt).cells().subscribers().insert(
                state.id(),
                Set::empty(),
            ),
            final(rt).cells().arena_scopes() == (match top_of(old(rt).context().scopes()) {
                Some(s) => old(rt).cells().arena_scopes().insert(s),
                None => old(rt).cells().arena_scopes(),
            }),
            final(rt).same_but_scopes(old(rt)),
            final(rt).registry() == old(rt).registry(),
    {
        let scope = rt.context.current_scope_id();
        let (id, slot) = rt.cells.create_state_box(scope, value);
        State { id, slot }
    }

    /// Reads the value and subscribes the topmost scope to the state. A
    /// state whose arena is gone is refused, and nothing is subscribed. What
    /// is read is what the storage holds; the subscription is made whether
    /// or not the storage can be read.
    pub fn get<C>(&self, rt: &mut Runtime<C>) -> (result: Result<T, StateError>)
        requires
            old(rt).wf(),
        ensures
            final(rt).wf(),
            final(rt).same_but_scopes(old(rt)),
            final(rt).registry() == old(rt).registry(),
            final(rt).cells().arenas() == old(rt).cells().arenas(),
            final(rt).cells().arena_scopes() == old(rt).cells().arena_scopes(),
            final(rt).cells().upcoming() == old(rt).cells().upcoming(),
            final(rt).cells().subscribers() == after_read(
                old(rt).cells().subscribers(),
                self.id(),
                old(rt).context().scopes(),
            ),
            !old(rt).cells().live(self.id()) ==> result == Err::<T, StateError>(StateError::ScopeDropped),
    {
        if !rt.cells.is_live(self.id) {
            proof {
                old(rt).cells().lemma_same_domain();
            }
            return Err(StateError::ScopeDropped);
        }
        proof {
            old(rt).cells().lemma_same_domain();
        }
        match rt.context.current_scope_id() {
            Some(scope) => {
                rt.cells.subscribe(self.id, scope);
            },
            None => {},
        }
        finish_read(read_value(&self.slot))
    }

    /// Reads the value without subscribing anything. A state whose arena is
    /// gone is refused.
    pub fn get_untracked<C>(&self, rt: &Runtime<C>) -> (result: Result<T, StateError>)
        ensures
            !rt.cells().live(self.id()) ==> result == Err::<T, StateError>(StateError::ScopeDropped),
    {
        if !rt.cells.is_live(self.id) {
            return Err(StateError::ScopeDropped);
        }
        finish_read(read_value(&self.slot))
    }

    /// Replaces the value and marks the subscribers dirty, or the root scope
    /// when there are none. The subscribers are taken after the storage has
    /// been released. A state whose arena is gone is refused; after a refusal
    /// nothing is marked.
    pub fn set<C>(&self, rt: &mut Runtime<C>, value: T) -> (result: Result<(), StateError>)
        ensures
            final(rt).same_but_dirty(old(rt)),
            final(rt).wf() == old(rt).wf(),
            !old(rt).cells().live(self.id()) ==> result == Err::<(), StateError>(StateError::ScopeDropped),
            final(rt).dirty() == (if result is Ok {
                old(rt).dirty().union(notified(old(rt).cells().subscribers()[self.id()]))
            } else {
                old(rt).dirty()
            }),
    {
        if !rt.cells.is_live(self.id) {
            return Err(StateError::ScopeDropped);
        }
        let outcome = write_value(&self.slot, value);
        rt.finish_write(self.id, outcome)
    }

    /// Reads the value, lets `f` change it, writes the changed value back and
    /// notifies as a `set` does. What is written is what `changed_by` makes
    /// of what was read. `f` is run once when the value could be read, and
    /// not at all when it could not.
    pub fn update<C, F: FnOnce(&mut T)>(&self, rt: &mut Runtime<C>, f: F) -> (result: Result<(), StateError>)
        requires
            forall|value: &mut T| f.requires((value,)),
        ensures
            final(rt).same_but_dirty(old(rt)),
            final(rt).wf() == old(rt).wf(),
            !old(rt).cells().live(self.id()) ==> result == Err::<(), StateError>(StateError::ScopeDropped),
            final(rt).dirty() == (if result is Ok {
                old(rt).dirty().union(notified(old(rt).cells().subscribers()[self.id()]))
            } else {
                old(rt).dirty()
            }),
            result is Ok ==> exists|value: &mut T| #[trigger] f.ensures((value,), ()),
    {
        if !rt.cells.is_live(self.id) {
            return Err(StateError::ScopeDropped);
        }
        match finish_read(read_value(&self.slot)) {
            Ok(value) => {
                let changed = changed_by(value, f);
                let outcome = write_value(&self.slot, changed);
                rt.finish_write(self.id, outcome)
            },
            Err(e) => Err(e),
        }
    }

    /// Replaces the value and notifies nobody. A state whose arena is gone is
    /// refused.
    pub fn set_silent<C>(&self, rt: &Runtime<C>, value: T) -> (result: Result<(), StateError>)
        ensures
            !rt.cells().live(self.id()) ==> result == Err::<(), StateError>(StateError::ScopeDropped),
    {
        if !rt.cells.is_live(self.id) {
            return Err(StateError::ScopeDropped);
        }
        match write_value(&self.slot, value) {
            Ok(_) => Ok(()),
            Err(BorrowMutError::Dropped(_)) => Err(StateError::ScopeDropped),
            Err(BorrowMutError::AlreadyBorrowed(_)) => Err(StateError::Busy),
            Err(BorrowMutError::AlreadyBorrowedMut(_)) => Err(StateError::Busy),
        }
    }

    /// Empties the subscribers of the state.
    pub fn clear_subscribers<C>(&self, rt: &mut Runtime<C>)
        requires
            old(rt).wf(),
        ensures
            final(rt).wf(),
            final(rt).same_but_scopes(old(rt)),
            final(rt).registry() == old(rt).registry(),
            final(rt).cells().arenas() == old(rt).cells().arenas(),
            final(rt).cells().arena_scopes() == old(rt).cells().arena_scopes(),
            final(rt).cells().upcoming() == old(rt).cells().upcoming(),
            final(rt).cells().subscribers() == (if old(rt).cells().live(self.id()) {
                old(rt).cells().subscribers().insert(self.id(), Set::empty())
            } else {
                old(rt).cells().subscribers()
            }),
    {
        rt.cells.clear_subscribers(self.id);
    }
}

impl State<i32> {
    /// Adds one to the value, wrapping around at the top of `i32`, and
    /// notifies as a `set` does: an `update` with `add_one`.
    pub fn increment<C>(&self, rt: &mut Runtime<C>) -> (result: Result<(), StateError>)
        ensures
            final(rt).same_but_dirty(old(rt)),
            final(rt).wf() == old(rt).wf(),
            !old(rt).cells().live(self.id()) ==> result == Err::<(), StateError>(StateError::ScopeDropped),
            final(rt).dirty() == (if result is Ok {
                old(rt).dirty().union(notified(old(rt).cells().subscribers()[self.id()]))
            } else {
                old(rt).dirty()
            }),
    {
        self.update(rt, add_one)
    }

    /// Takes one from the value, wrapping around at the bottom of `i32`, and
    /// notifies as a `set` does: an `update` with `take_one`.
    pub fn decrement<C>(&self, rt: &mut Runtime<C>) -> (result: Result<(), StateError>)
        ensures
            final(rt).same_but_dirty(old(rt)),
            final(rt).wf() == old(rt).wf(),
            !old(rt).cells().live(self.id()) ==> result == Err::<(), StateError>(StateError::ScopeDropped),
            final(rt).dirty() == (if result is Ok {
                old(rt).dirty().union(notified(old(rt).cells().subscribers()[self.id()]))
            } else {
                old(rt).dirty()
            }),
    {
        self.update(rt, take_one)
    }
}

/// Adds one, wrapping around at the top of `i32`.
pub fn add_one(value: &mut i32)
    ensures
        *final(value) == old(value).wrapping_add(1),
{
    *value = value.wrapping_add(1);
}

/// Takes one, wrapping around at the bottom of `i32`.
pub fn take_one(value: &mut i32)
    ensures
        *final(value) == old(value).wrapping_sub(1),
{
    *value = value.wrapping_sub(1);
}

} // verus!
