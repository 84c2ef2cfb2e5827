//! A state holder that counts its changes and calls back on each.

use vstd::prelude::*;
use vstd::std_specs::cmp::PartialEqSpec;
use crate::composition::tree::CompositionId;

verus! {

/// A value with a version that counts how often it has changed, the nodes
/// that subscribed to it, and a callback for changes. `N` is the callback.
/// A clone is a state of its own: it shares nothing with the state it was
/// cloned from.
#[derive(Clone)]
pub struct MutableState<T, N> {
    value: T,
    version: u64,
    subscribers: Vec<CompositionId>,
    on_change: Option<N>,
}

impl<T: Clone + PartialEq, N: Fn()> MutableState<T, N> {
    /// The value.
    pub closed spec fn value(&self) -> T {
        self.value
    }

    /// How often the value has changed.
    pub closed spec fn changes(&self) -> u64 {
        self.version
    }

    /// The nodes that subscribed, in the order in which they did.
    pub closed spec fn subscribers(&self) -> Seq<CompositionId> {
        self.subscribers@
    }

    /// The callback for changes, if one is set.
    pub closed spec fn callback(&self) -> Option<N> {
        self.on_change
    }

    /// The version can still advance.
    pub open spec fn can_change(&self) -> bool {
        self.changes() < u64::MAX
    }

    /// A state that holds `initial`, at version 0, without subscribers or
    /// callback.
    pub fn new(initial: T) -> (state: MutableState<T, N>)
        ensures
            state.value() == initial,
            state.changes() == 0,
            state.subscribers() == Seq::<CompositionId>::empty(),
            state.callback() is None,
    {
        MutableState { value: initial, version: 0, subscribers: Vec::new(), on_change: None }
    }

    /// A clone of the value.
    pub fn get(&self) -> (value: T)
        ensures
            cloned(self.value(), value),
    {
        self.value.clone()
    }

    /// Whether the version can still advance.
    pub fn has_room(&self) -> (b: bool)
        ensures
            b == self.can_change(),
    {
        self.version < u64::MAX
    }

    /// Replaces the value when `new_value` differs from it: then the version
    /// advances by one and the callback, if there is one, is called. When
    /// the two are equal nothing happens.
    pub fn set(&mut self, new_value: T)
        requires
            old(self).can_change(),
            old(self).callback() is Some ==> old(self).callback()->0.requires(()),
        ensures
            final(self).subscribers() == old(self).subscribers(),
            final(self).callback() == old(self).callback(),
            ({
                &&& final(self).value() == new_value
                &&& final(self).changes() == old(self).changes() + 1
                &&& T::obeys_eq_spec() ==> !old(self).value().eq_spec(&new_value)
                &&& old(self).callback() is Some ==> old(self).callback()->0.ensures((), ())
            }) || ({
                &&& final(self).value() == old(self).value()
                &&& final(self).changes() == old(self).changes()
                &&& T::obeys_eq_spec() ==> old(self).value().eq_spec(&new_value)
            }),
    {
        let changed = self.value != new_value;
        if changed {
            self.value = new_value;
            self.version = self.version + 1;
            match &self.on_change {
                Some(callback) => {
                    callback();
                },
                None => {},
            }
        }
    }

    /// Computes a new value from the present one and sets it.
    pub fn update<F: FnOnce(&T) -> T>(&mut self, f: F)
        requires
            old(self).can_change(),
            old(self).callback() is Some ==> old(self).callback()->0.requires(()),
            f.requires((&old(self).value(),)),
        ensures
            final(self).subscribers() == old(self).subscribers(),
            final(self).callback() == old(self).callback(),
            exists|new_value: T| #[trigger]
                f.ensures((&old(self).value(),), new_value) && (({
                    &&& final(self).value() == new_value
                    &&& final(self).changes() == old(self).changes() + 1
                    &&& T::obeys_eq_spec() ==> !old(self).value().eq_spec(&new_value)
                    &&& old(self).callback() is Some ==> old(self).callback()->0.ensures((), ())
                }) || ({
                    &&& final(self).value() == old(self).value()
                    &&& final(self).changes() == old(self).changes()
                    &&& T::obeys_eq_spec() ==> old(self).value().eq_spec(&new_value)
                })),
    {
        let new_value = f(&self.value);
        self.set(new_value);
    }

    /// How often the value has changed.
    pub fn version(&self) -> (version: u64)
        ensures
            version == self.changes(),
    {
        self.version
    }

    /// Adds `id` to the subscribers.
    pub fn subscribe(&mut self, id: CompositionId)
        ensures
            final(self).subscribers() == old(self).subscribers().push(id),
            final(self).value() == old(self).value(),
            final(self).changes() == old(self).changes(),
            final(self).callback() == old(self).callback(),
    {
        self.subscribers.push(id);
    }

    /// Number of subscribers.
    pub fn subscriber_count(&self) -> (n: usize)
        ensures
            n == self.subscribers().len(),
    {
        self.subscribers.len()
    }

    /// Sets the callback for changes.
    pub fn set_on_change(&mut self, callback: N)
        ensures
            final(self).callback() == Some(callback),
            final(self).value() == old(self).value(),
            final(self).changes() == old(self).changes(),
            final(self).subscribers() == old(self).subscribers(),
    {
        self.on_change = Some(callback);
    }
}

impl<T: Clone + PartialEq + Default, N: Fn()> Default for MutableState<T, N> {
    fn default() -> (state: Self)
        ensures
            state.changes() == 0,
            state.subscribers() == Seq::<CompositionId>::empty(),
            state.callback() is None,
    {
        MutableState::new(T::default())
    }
}

/// A state that holds `initial`, at version 0, without subscribers or
/// callback.
pub fn mutable_state_of<T: Clone + PartialEq, N: Fn()>(initial: T) -> (state: MutableState<T, N>)
    ensures
        state.value() == initial,
        state.changes() == 0,
        state.subscribers() == Seq::<CompositionId>::empty(),
        state.callback() is None,
{
    MutableState::new(initial)
}

} // verus!
