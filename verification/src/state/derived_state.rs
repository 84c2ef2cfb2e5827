//! State that is computed from other state and cached until invalidated.

use vstd::prelude::*;

verus! {

/// A value that `calculation` computes, cached until it is invalidated.
pub struct DerivedState<T, F> {
    value: Option<T>,
    calculation: F,
    dirty: bool,
}

impl<T: Clone, F: Fn() -> T> DerivedState<T, F> {
    /// The cached value, if there is one.
    pub closed spec fn cached(&self) -> Option<T> {
        self.value
    }

    /// The function that computes the value.
    pub closed spec fn calculation(&self) -> F {
        self.calculation
    }

    /// Whether the next read computes the value anew.
    pub closed spec fn stale(&self) -> bool {
        self.dirty || self.value is None
    }

    /// A derived state without a cached value.
    pub fn new(calculation: F) -> (state: DerivedState<T, F>)
        ensures
            state.cached() == None::<T>,
            state.calculation() == calculation,
            state.stale(),
    {
        DerivedState { value: None, calculation, dirty: true }
    }

    /// The value. A stale state runs the calculation, caches a clone of the
    /// result and returns the result; otherwise a clone of the cached value
    /// is returned and the calculation is not run.
    pub fn get(&mut self) -> (value: T)
        requires
            old(self).calculation().requires(()),
        ensures
            !final(self).stale(),
            final(self).calculation() == old(self).calculation(),
            old(self).stale() ==> {
                &&& old(self).calculation().ensures((), value)
                &&& final(self).cached() is Some
                &&& cloned(value, final(self).cached()->0)
            },
            !old(self).stale() ==> {
                &&& final(self).cached() == old(self).cached()
                &&& cloned(old(self).cached()->0, value)
            },
    {
        let cached = if self.dirty {
            None
        } else {
            match &self.value {
                Some(v) => Some(v.clone()),
                None => None,
            }
        };
        match cached {
            Some(v) => v,
            None => {
                let new_value = (self.calculation)();
                self.value = Some(new_value.clone());
                self.dirty = false;
                new_value
            },
        }
    }

    /// Makes the state stale: the next read computes the value anew.
    pub fn invalidate(&mut self)
        ensures
            final(self).stale(),
            final(self).cached() == old(self).cached(),
            final(self).calculation() == old(self).calculation(),
    {
        self.dirty = true;
    }
}

/// A derived state for `calculation`, without a cached value.
pub fn derived_state_of<T: Clone, F: Fn() -> T>(calculation: F) -> (state: DerivedState<T, F>)
    ensures
        state.cached() == None::<T>,
        state.calculation() == calculation,
        state.stale(),
{
    DerivedState::new(calculation)
}

} // verus!
