//! Slots for values that a composable remembers from one composition to the
//! next.

use vstd::prelude::*;

verus! {

/// The slots of one composable, and the position of the next one to be
/// asked for. All slots hold values of one type `V`.
pub struct StateSlotManager<V> {
    slots: Vec<V>,
    current_index: usize,
}

impl<V> StateSlotManager<V> {
    /// The values in the slots, in the order in which they were created.
    pub closed spec fn slots(&self) -> Seq<V> {
        self.slots@
    }

    /// The position of the slot that the next `remember` asks for.
    pub closed spec fn index(&self) -> nat {
        self.current_index as nat
    }

    /// The position can still advance.
    pub open spec fn can_advance(&self) -> bool {
        self.index() < usize::MAX
    }

    /// No slots, position 0.
    pub fn new() -> (manager: StateSlotManager<V>)
        ensures
            manager.slots() == Seq::<V>::empty(),
            manager.index() == 0,
    {
        StateSlotManager { slots: Vec::new(), current_index: 0 }
    }

    /// Whether the position can still advance.
    pub fn has_room(&self) -> (b: bool)
        ensures
            b == self.can_advance(),
    {
        self.current_index < usize::MAX
    }

    /// Asks for the slot at the current position and advances the position by
    /// one. Where the slot exists, a clone of its value is returned and `init`
    /// is not run. Where it does not, `init` is run, a clone of its result
    /// becomes the last slot, and the result is returned.
    pub fn remember<F: FnOnce() -> V>(&mut self, init: F) -> (value: V) where V: Clone
        requires
            old(self).can_advance(),
            init.requires(()),
        ensures
            final(self).index() == old(self).index() + 1,
            old(self).index() < old(self).slots().len() ==> {
                &&& final(self).slots() == old(self).slots()
                &&& cloned(old(self).slots()[old(self).index() as int], value)
            },
            old(self).index() >= old(self).slots().len() ==> {
                &&& init.ensures((), value)
                &&& final(self).slots().len() == old(self).slots().len() + 1
                &&& final(self).slots().drop_last() == old(self).slots()
                &&& cloned(value, final(self).slots().last())
            },
    {
        let index = self.current_index;
        self.current_index = index + 1;
        if index >= self.slots.len() {
            let value = init();
            let kept = value.clone();
            self.slots.push(kept);
            assert(self.slots@.drop_last() =~= old(self).slots@);
            value
        } else {
            self.slots[index].clone()
        }
    }

    /// Replaces the value of the slot at `index`. Where there is no such slot
    /// nothing happens.
    pub fn update(&mut self, index: usize, value: V)
        ensures
            final(self).index() == old(self).index(),
            final(self).slots() == (if index < old(self).slots().len() {
                old(self).slots().update(index as int, value)
            } else {
                old(self).slots()
            }),
    {
        if index < self.slots.len() {
            self.slots.set(index, value);
        }
    }

    /// Puts the position back to 0, as at the start of a recomposition. The
    /// slots stay.
    pub fn reset(&mut self)
        ensures
            final(self).index() == 0,
            final(self).slots() == old(self).slots(),
    {
        self.current_index = 0;
    }

    /// The position of the slot that the next `remember` asks for.
    pub fn current_index(&self) -> (index: usize)
        ensures
            index == self.index(),
    {
        self.current_index
    }

    /// Number of slots.
    pub fn len(&self) -> (n: usize)
        ensures
            n == self.slots().len(),
    {
        self.slots.len()
    }
}

} // verus!
