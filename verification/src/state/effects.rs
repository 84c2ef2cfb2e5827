//! Effects: work that a composable does besides emitting.

use vstd::prelude::*;
use vstd::std_specs::cmp::PartialEqSpec;
use crate::composition::context::CompositionContext;

verus! {

/// The handle of an effect that has something to undo. `D` is what undoes
/// it.
pub struct DisposableEffect<D> {
    /// What to run when the effect is disposed of.
    pub on_dispose: Option<D>,
}

impl<D: FnOnce()> DisposableEffect<D> {
    /// An effect with nothing to undo.
    pub fn new() -> (effect: DisposableEffect<D>)
        ensures
            effect.on_dispose is None,
    {
        DisposableEffect { on_dispose: None }
    }

    /// The effect with `f` as what undoes it.
    pub fn with_dispose(self, f: D) -> (effect: DisposableEffect<D>)
        ensures
            effect.on_dispose == Some(f),
    {
        let mut effect = self;
        effect.on_dispose = Some(f);
        effect
    }

    /// Disposes of the effect: what undoes it is run, once, if there is
    /// something.
    pub fn dispose(self) -> (ran: bool)
        requires
            self.on_dispose is Some ==> self.on_dispose->0.requires(()),
        ensures
            ran == (self.on_dispose is Some),
            ran ==> self.on_dispose->0.ensures((), ()),
    {
        match self.on_dispose {
            Some(undo) => {
                undo();
                true
            },
            None => false,
        }
    }
}

impl<D: FnOnce()> Default for DisposableEffect<D> {
    fn default() -> (effect: Self)
        ensures
            effect.on_dispose is None,
    {
        DisposableEffect { on_dispose: None }
    }
}

/// Whether an effect with the key `key` has to run when the slot that holds
/// its last key reads `remembered`: always, unless the slot holds an equal
/// key.
pub open spec fn key_changed<K: PartialEq>(remembered: Option<K>, key: K) -> bool {
    match remembered {
        Some(last) => !last.eq_spec(&key),
        None => true,
    }
}

/// Compares the remembered key of an effect with its present key.
pub fn is_new_key<K: PartialEq>(remembered: &Option<K>, key: &K) -> (changed: bool)
    ensures
        K::obeys_eq_spec() ==> changed == key_changed(*remembered, *key),
        *remembered is None ==> changed,
{
    match remembered {
        Some(last) => !(*last == *key),
        None => true,
    }
}

/// Runs `effect` when `key` differs from the key that the composition
/// remembers at the current slot, or when it remembers none; then `key` is
/// remembered in that slot. The slot position advances by one either way.
/// Says whether the effect ran.
pub fn launched_effect<M, K: PartialEq + Clone, F: FnOnce()>(
    ctx: &mut CompositionContext<M, Option<K>>,
    key: K,
    effect: F,
) -> (ran: bool)
    requires
        old(ctx).slots().can_advance(),
        effect.requires(()),
    ensures
        final(ctx).same_groups(old(ctx)),
        final(ctx).slots().index() == old(ctx).slots().index() + 1,
        ran ==> effect.ensures((), ()),
        old(ctx).slots().index() >= old(ctx).slots().slots().len() ==> {
            &&& ran
            &&& final(ctx).slots().slots().len() == old(ctx).slots().slots().len() + 1
            &&& final(ctx).slots().slots().drop_last() == old(ctx).slots().slots()
            &&& old(ctx).slots().index() == old(ctx).slots().slots().len()
                ==> final(ctx).slots().slots().last() == Some(key)
        },
        old(ctx).slots().index() < old(ctx).slots().slots().len() ==> {
            let at = old(ctx).slots().index() as int;
            &&& exists|remembered: Option<K>| #[trigger]
                cloned(old(ctx).slots().slots()[at], remembered) && (K::obeys_eq_spec() ==> ran
                    == key_changed(remembered, key)) && (remembered is None ==> ran)
            &&& final(ctx).slots().slots() == (if ran {
                old(ctx).slots().slots().update(at, Some(key))
            } else {
                old(ctx).slots().slots()
            })
        },
{
    let manager = ctx.state_manager();
    let none = || -> (r: Option<K>)
        ensures
            r is None,
        { None };
    let prev_key = manager.remember(none);
    let ran = is_new_key(&prev_key, &key);
    if ran {
        let index = manager.current_index() - 1;
        manager.update(index, Some(key));
        effect();
    }
    ran
}

/// Runs `effect` and returns its handle when `key` differs from the key that
/// the composition remembers at the current slot, or when it remembers none;
/// then `key` is remembered in that slot. Otherwise the effect is not run and
/// a handle with nothing to undo is returned. The slot position advances by
/// one either way.
pub fn disposable_effect<M, K: PartialEq + Clone, D: FnOnce(), F: FnOnce() -> DisposableEffect<D>>(
    ctx: &mut CompositionContext<M, Option<K>>,
    key: K,
    effect: F,
) -> (handle: DisposableEffect<D>)
    requires
        old(ctx).slots().can_advance(),
        effect.requires(()),
    ensures
        final(ctx).same_groups(old(ctx)),
        final(ctx).slots().index() == old(ctx).slots().index() + 1,
        effect.ensures((), handle) || handle.on_dispose is None,
        old(ctx).slots().index() >= old(ctx).slots().slots().len() ==> {
            &&& effect.ensures((), handle)
            &&& final(ctx).slots().slots().len() == old(ctx).slots().slots().len() + 1
            &&& final(ctx).slots().slots().drop_last() == old(ctx).slots().slots()
            &&& old(ctx).slots().index() == old(ctx).slots().slots().len()
                ==> final(ctx).slots().slots().last() == Some(key)
        },
        old(ctx).slots().index() < old(ctx).slots().slots().len() ==> {
            let at = old(ctx).slots().index() as int;
            exists|remembered: Option<K>| #[trigger]
                cloned(old(ctx).slots().slots()[at], remembered) && ({
                    ||| {
                        &&& K::obeys_eq_spec() ==> key_changed(remembered, key)
                        &&& effect.ensures((), handle)
                        &&& final(ctx).slots().slots() == old(ctx).slots().slots().update(at, Some(key))
                    }
                    ||| {
                        &&& K::obeys_eq_spec() ==> !key_changed(remembered, key)
                        &&& remembered is Some
                        &&& handle.on_dispose is None
                        &&& final(ctx).slots().slots() == old(ctx).slots().slots()
                    }
                })
        },
{
    let manager = ctx.state_manager();
    let none = || -> (r: Option<K>)
        ensures
            r is None,
        { None };
    let prev_key = manager.remember(none);
    let ran = is_new_key(&prev_key, &key);
    if ran {
        let index = manager.current_index() - 1;
        manager.update(index, Some(key));
        effect()
    } else {
        DisposableEffect::new()
    }
}

/// Runs `effect` at once.
pub fn side_effect<F: FnOnce()>(effect: F)
    requires
        effect.requires(()),
    ensures
        effect.ensures((), ()),
{
    effect();
}

} // verus!
