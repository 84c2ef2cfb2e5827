use becompose::composition::context::CompositionContext;
use becompose::composition::tree::CompositionId;
use becompose::state::derived_state::{derived_state_of, DerivedState};
use becompose::state::effects::{disposable_effect, launched_effect, side_effect, DisposableEffect};
use becompose::state::mutable_state::{mutable_state_of, MutableState};
use becompose::state::remember::{remember, remember_mutable_state};
use becompose::state::slot::StateSlotManager;
use std::cell::Cell;
use std::rc::Rc;

#[test]
fn slots_are_created_once_and_found_again() {
    let mut slots: StateSlotManager<String> = StateSlotManager::new();
    assert_eq!(slots.current_index(), 0);
    assert_eq!(slots.len(), 0);
    assert!(slots.has_room());
    assert_eq!(slots.remember(|| "first".to_string()), "first");
    assert_eq!(slots.remember(|| "second".to_string()), "second");
    assert_eq!(slots.current_index(), 2);
    assert_eq!(slots.len(), 2);

    slots.reset();
    assert_eq!(slots.current_index(), 0);
    // the initializer is not run for a slot that exists
    assert_eq!(slots.remember(|| panic!("must not run")), "first");
    assert_eq!(slots.remember(|| panic!("must not run")), "second");
    assert_eq!(slots.remember(|| "third".to_string()), "third");
    assert_eq!(slots.len(), 3);
}

#[test]
fn slot_update_replaces_only_existing_slots() {
    let mut slots: StateSlotManager<i32> = StateSlotManager::new();
    slots.remember(|| 1);
    slots.remember(|| 2);
    slots.update(1, 20);
    slots.update(5, 50);
    assert_eq!(slots.len(), 2);
    slots.reset();
    assert_eq!(slots.remember(|| 0), 1);
    assert_eq!(slots.remember(|| 0), 20);
    assert_eq!(slots.current_index(), 2);
}

#[test]
fn derived_state_caches_until_invalidated() {
    let runs = Rc::new(Cell::new(0));
    let source = Rc::new(Cell::new(3));
    let (r, s) = (runs.clone(), source.clone());
    let mut derived = DerivedState::new(move || {
        r.set(r.get() + 1);
        s.get() * 2
    });
    assert_eq!(derived.get(), 6);
    assert_eq!(derived.get(), 6);
    assert_eq!(runs.get(), 1);
    source.set(5);
    assert_eq!(derived.get(), 6);
    derived.invalidate();
    assert_eq!(derived.get(), 10);
    assert_eq!(runs.get(), 2);

    let mut other = derived_state_of(|| "x".to_string());
    assert_eq!(other.get(), "x");
}

#[test]
fn launched_effect_runs_when_the_key_changes() {
    let mut ctx: CompositionContext<(), Option<u32>> = CompositionContext::new();
    let runs = Rc::new(Cell::new(0));
    let bump = |runs: &Rc<Cell<i32>>| {
        let r = runs.clone();
        move || r.set(r.get() + 1)
    };
    assert!(launched_effect(&mut ctx, 1, bump(&runs)));
    assert_eq!(runs.get(), 1);
    assert_eq!(ctx.state_manager().current_index(), 1);

    ctx.state_manager().reset();
    assert!(!launched_effect(&mut ctx, 1, bump(&runs)));
    assert_eq!(runs.get(), 1);

    ctx.state_manager().reset();
    assert!(launched_effect(&mut ctx, 2, bump(&runs)));
    assert_eq!(runs.get(), 2);

    ctx.state_manager().reset();
    assert!(!launched_effect(&mut ctx, 2, bump(&runs)));
    assert_eq!(runs.get(), 2);
    assert_eq!(ctx.state_manager().len(), 1);
}

#[test]
fn disposable_effect_hands_back_what_undoes_it() {
    let mut ctx: CompositionContext<(), Option<&'static str>> = CompositionContext::new();
    let undone = Rc::new(Cell::new(0));
    let u = undone.clone();
    let handle = disposable_effect(&mut ctx, "a", move || {
        DisposableEffect::new().with_dispose(move || u.set(u.get() + 1))
    });
    assert!(handle.on_dispose.is_some());
    assert!(handle.dispose());
    assert_eq!(undone.get(), 1);

    ctx.state_manager().reset();
    let u = undone.clone();
    let again = disposable_effect(&mut ctx, "a", move || {
        DisposableEffect::new().with_dispose(move || u.set(u.get() + 1))
    });
    assert!(again.on_dispose.is_none());
    assert!(!again.dispose());
    assert_eq!(undone.get(), 1);

    let nothing: DisposableEffect<fn()> = DisposableEffect::default();
    assert!(nothing.on_dispose.is_none());
}

#[test]
fn side_effect_runs_at_once() {
    let ran = Rc::new(Cell::new(false));
    let r = ran.clone();
    side_effect(move || r.set(true));
    assert!(ran.get());
}

#[test]
fn remember_goes_through_the_composition() {
    let mut ctx: CompositionContext<(), u8> = CompositionContext::new();
    assert_eq!(remember(&mut ctx, || 7), 7);
    assert_eq!(remember(&mut ctx, || 8), 8);
    ctx.state_manager().reset();
    assert_eq!(remember(&mut ctx, || 0), 7);
    assert_eq!(ctx.state_manager().current_index(), 1);
}

#[test]
fn mutable_state_counts_changes_and_calls_back() {
    let calls = Rc::new(Cell::new(0));
    let c = calls.clone();
    let mut state = MutableState::new(1);
    state.set_on_change(move || c.set(c.get() + 1));
    assert_eq!(state.get(), 1);
    assert_eq!(state.version(), 0);
    state.set(1);
    assert_eq!(state.version(), 0);
    assert_eq!(calls.get(), 0);
    state.set(2);
    assert_eq!(state.get(), 2);
    assert_eq!(state.version(), 1);
    assert_eq!(calls.get(), 1);
    state.update(|v| v + 5);
    assert_eq!(state.get(), 7);
    assert_eq!(state.version(), 2);
    assert_eq!(calls.get(), 2);
    state.update(|v| *v);
    assert_eq!(state.version(), 2);
    state.subscribe(CompositionId(4));
    state.subscribe(CompositionId(4));
    assert_eq!(state.subscriber_count(), 2);
    assert!(state.has_room());

    let plain: MutableState<String, fn()> = mutable_state_of("a".to_string());
    assert_eq!(plain.get(), "a");
    let empty: MutableState<i64, fn()> = MutableState::default();
    assert_eq!(empty.get(), 0);
    assert_eq!(empty.version(), 0);
}

#[test]
fn remembered_mutable_state_is_a_copy_of_the_slot() {
    let mut ctx: CompositionContext<(), MutableState<i32, fn()>> = CompositionContext::new();
    let mut first = remember_mutable_state(&mut ctx, 10);
    assert_eq!(first.get(), 10);
    first.set(11);
    ctx.state_manager().reset();
    let second = remember_mutable_state(&mut ctx, 99);
    assert_eq!(second.get(), 10);
    ctx.state_manager().update(0, first);
    ctx.state_manager().reset();
    let third = remember_mutable_state(&mut ctx, 99);
    assert_eq!(third.get(), 11);
    assert_eq!(third.version(), 1);
}
