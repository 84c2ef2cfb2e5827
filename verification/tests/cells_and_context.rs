use becompose::runtime::cells::{StateCells, StateId};
use becompose::runtime::context::{CompositionContext, Placement};
use becompose::runtime::error::CompositionError;
use becompose::runtime::ids::{EntityId, ScopeId};

fn sorted(mut scopes: Vec<ScopeId>) -> Vec<ScopeId> {
    scopes.sort_by_key(|s| s.0);
    scopes
}

#[test]
fn cells_track_subscribers_per_cell() {
    let mut cells = StateCells::new();
    assert!(cells.has_next());
    let (a, _slot_a) = cells.create_state_box(None, 1u8);
    let (b, _slot_b) = cells.create_state_box(Some(ScopeId(4)), 2u8);
    assert_eq!((a, b), (StateId(0), StateId(1)));
    assert!(cells.is_live(a) && cells.is_live(b) && !cells.is_live(StateId(2)));
    assert!(cells.has_arena(ScopeId(4)) && !cells.has_arena(ScopeId(5)));

    cells.subscribe(a, ScopeId(1));
    cells.subscribe(a, ScopeId(2));
    cells.subscribe(a, ScopeId(1));
    cells.subscribe(b, ScopeId(2));
    cells.subscribe(StateId(9), ScopeId(2));
    assert_eq!(sorted(cells.subscribers_of(a)), vec![ScopeId(1), ScopeId(2)]);
    assert_eq!(cells.subscribers_of(b), vec![ScopeId(2)]);
    assert!(cells.subscribers_of(StateId(9)).is_empty());

    cells.unsubscribe_scope(ScopeId(2));
    assert_eq!(cells.subscribers_of(a), vec![ScopeId(1)]);
    assert!(cells.subscribers_of(b).is_empty());

    cells.subscribe(b, ScopeId(3));
    cells.clear_subscribers(a);
    assert!(cells.subscribers_of(a).is_empty());
    assert_eq!(cells.subscribers_of(b), vec![ScopeId(3)]);
    cells.clear_all_subscribers();
    assert!(cells.subscribers_of(b).is_empty());
}

#[test]
fn dropping_an_arena_frees_its_cells_only() {
    let mut cells = StateCells::new();
    let (global, _g) = cells.create_state_box(None, 0u8);
    let (in_four, _f) = cells.create_state_box(Some(ScopeId(4)), 0u8);
    let (also_four, _a) = cells.create_state_box(Some(ScopeId(4)), 0u8);
    let (in_five, _v) = cells.create_state_box(Some(ScopeId(5)), 0u8);
    cells.subscribe(in_five, ScopeId(4));
    cells.drop_scope_owner(ScopeId(4));
    assert!(!cells.is_live(in_four) && !cells.is_live(also_four));
    assert!(cells.is_live(global) && cells.is_live(in_five));
    assert!(!cells.has_arena(ScopeId(4)) && cells.has_arena(ScopeId(5)));
    // a subscription of the dead scope stays; it is passed over when marked
    assert_eq!(cells.subscribers_of(in_five), vec![ScopeId(4)]);
    // identifiers are not handed out again
    let (next, _n) = cells.create_state_box(Some(ScopeId(4)), 0u8);
    assert_eq!(next, StateId(4));
    assert!(!cells.is_live(in_four));
    cells.drop_scope_owner(ScopeId(9));
    assert!(cells.is_live(next));
}

#[test]
fn context_stacks_push_and_pop() {
    let mut ctx = CompositionContext::new();
    assert!(ctx.is_idle() && !ctx.is_active());
    ctx.begin_incremental_composition();
    assert!(ctx.is_active() && !ctx.is_idle());
    ctx.enter_scope(ScopeId(1));
    ctx.enter_scope(ScopeId(2));
    ctx.push_parent(EntityId(10));
    ctx.set_parent_for_scope(EntityId(11));
    assert_eq!(ctx.current_scope_id(), Some(ScopeId(2)));
    assert_eq!(ctx.get_current_parent(), Some(EntityId(11)));
    assert_eq!((ctx.scope_depth(), ctx.parent_depth()), (2, 2));
    assert_eq!(ctx.scope_snapshot(), vec![ScopeId(1), ScopeId(2)]);
    assert_eq!(ctx.parent_snapshot(), vec![EntityId(10), EntityId(11)]);
    assert!(ctx.stacks_are(&vec![EntityId(10), EntityId(11)], &vec![ScopeId(1), ScopeId(2)]));
    assert!(!ctx.stacks_are(&vec![EntityId(10), EntityId(11)], &vec![ScopeId(2), ScopeId(1)]));
    assert!(!ctx.stacks_are(&vec![EntityId(10)], &vec![ScopeId(1), ScopeId(2)]));
    ctx.exit_scope();
    ctx.pop_parent();
    assert_eq!(ctx.current_scope_id(), Some(ScopeId(1)));
    assert_eq!(ctx.get_current_parent(), Some(EntityId(10)));
    ctx.clear_parent_stack();
    assert_eq!(ctx.get_current_parent(), None);
    ctx.begin_composition();
    assert_eq!(ctx.current_scope_id(), None);
    ctx.enter_scope(ScopeId(3));
    ctx.end_composition();
    assert!(ctx.is_idle());
}

#[test]
fn context_records_what_scopes_own() {
    let mut ctx = CompositionContext::new();
    assert_eq!(ctx.spawn_child(EntityId(1)), Err(CompositionError::NotComposing));
    ctx.register_entity_scope(EntityId(1), ScopeId(7));
    ctx.register_entity_scope(EntityId(2), ScopeId(7));
    ctx.register_entity_scope(EntityId(3), ScopeId(8));
    assert_eq!(ctx.get_scope_entities(ScopeId(7)), vec![EntityId(1), EntityId(2)]);
    assert_eq!(ctx.get_scope_root_entity(ScopeId(7)), Some(EntityId(1)));
    assert_eq!(ctx.get_scope_root_entity(ScopeId(9)), None);
    ctx.clear_scope_mappings(&vec![ScopeId(7), ScopeId(9)]);
    assert!(ctx.get_scope_entities(ScopeId(7)).is_empty());
    assert_eq!(ctx.get_scope_entities(ScopeId(8)), vec![EntityId(3)]);
    ctx.clear_scope_mapping(ScopeId(8));
    assert!(ctx.get_scope_entities(ScopeId(8)).is_empty());
    ctx.begin_composition();
    ctx.push_parent(EntityId(4));
    assert_eq!(ctx.spawn_child(EntityId(5)), Ok(Placement::ChildOf(EntityId(4))));
    assert!(ctx.get_scope_entities(ScopeId(7)).is_empty());
}
