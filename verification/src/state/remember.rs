//! Remembering a value across recompositions.

use vstd::prelude::*;
use vstd::std_specs::cmp::PartialEqSpec;
use crate::composition::context::CompositionContext;
use crate::state::mutable_state::MutableState;

verus! {

/// Asks the composition for the slot at the current position and advances
/// the position by one. Where the slot exists, a clone of its value is
/// returned; where it does not, `init` is run, a clone of its result becomes
/// the last slot, and the result is returned.
pub fn remember<M, T: Clone, F: FnOnce() -> T>(ctx: &mut CompositionContext<M, T>, init: F) -> (value: T)
    requires
        old(ctx).slots().can_advance(),
        init.requires(()),
    ensures
        final(ctx).same_groups(old(ctx)),
        final(ctx).slots().index() == old(ctx).slots().index() + 1,
        old(ctx).slots().index() < old(ctx).slots().slots().len() ==> {
            &&& final(ctx).slots().slots() == old(ctx).slots().slots()
            &&& cloned(old(ctx).slots().slots()[old(ctx).slots().index() as int], value)
        },
        old(ctx).slots().index() >= old(ctx).slots().slots().len() ==> {
            &&& init.ensures((), value)
            &&& final(ctx).slots().slots().len() == old(ctx).slots().slots().len() + 1
            &&& final(ctx).slots().slots().drop_last() == old(ctx).slots().slots()
            &&& cloned(value, final(ctx).slots().slots().last())
        },
{
    let manager = ctx.state_manager();
    manager.remember(init)
}

/// Remembers a mutable state. On the first composition a state that holds
/// `initial` is made and a clone of it is kept in the slot; on later ones a
/// clone of what the slot holds is returned. What is returned shares nothing
/// with the slot: a change has to be written back to the slot to be found
/// again.
pub fn remember_mutable_state<M, T: Clone + PartialEq, N: Fn() + Clone>(
    ctx: &mut CompositionContext<M, MutableState<T, N>>,
    initial: T,
) -> (state: MutableState<T, N>)
    requires
        old(ctx).slots().can_advance(),
    ensures
        final(ctx).same_groups(old(ctx)),
        final(ctx).slots().index() == old(ctx).slots().index() + 1,
        old(ctx).slots().index() < old(ctx).slots().slots().len() ==> {
            &&& final(ctx).slots().slots() == old(ctx).slots().slots()
            &&& cloned(old(ctx).slots().slots()[old(ctx).slots().index() as int], state)
        },
        old(ctx).slots().index() >= old(ctx).slots().slots().len() ==> {
            &&& state.value() == initial
            &&& state.changes() == 0
            &&& state.callback() is None
            &&& final(ctx).slots().slots().len() == old(ctx).slots().slots().len() + 1
            &&& final(ctx).slots().slots().drop_last() == old(ctx).slots().slots()
            &&& cloned(state, final(ctx).slots().slots().last())
        },
{
    let init = move || -> (made: MutableState<T, N>)
        ensures
            made.value() == initial,
            made.changes() == 0,
            made.callback() is None,
        { MutableState::new(initial) };
    remember(ctx, init)
}

} // verus!
