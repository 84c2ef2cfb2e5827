use becompose::composition::entity_bridge::{entities_to_despawn, find_bridge, CompositionBridge};
use becompose::composition::tree::CompositionId;
use becompose::layout::arrangement::{
    AlignItems, Alignment2D, HorizontalAlignment, HorizontalArrangement, JustifyContent, VerticalAlignment,
    VerticalArrangement,
};
use becompose::runtime::engine::state::{add_one, changed_by, finish_read, take_one, State, StateError};
use becompose::runtime::engine::Runtime;
use becompose::runtime::ids::{EntityId, ScopeId};
use becompose::runtime::registry::{contains_entity, ScopeRegistry};
use becompose::window::{BecomposeApp, WindowConfig};
use generational_box::{AnyStorage, BorrowError, BorrowMutError, UnsyncStorage};

fn dropped_read() -> BorrowError {
    let owner = UnsyncStorage::owner();
    let slot = owner.insert(1u8);
    drop(owner);
    slot.try_read().err().expect("the owner is gone")
}

fn busy_read() -> BorrowError {
    let owner = UnsyncStorage::owner();
    let slot = owner.insert(1u8);
    let _writer = slot.try_write().expect("free");
    slot.try_read().err().expect("a writer holds the value")
}

fn dropped_write() -> BorrowMutError {
    let owner = UnsyncStorage::owner();
    let slot = owner.insert(1u8);
    drop(owner);
    slot.try_write().err().expect("the owner is gone")
}

fn write_while_read() -> BorrowMutError {
    let owner = UnsyncStorage::owner();
    let slot = owner.insert(1u8);
    let _reader = slot.try_read().expect("free");
    slot.try_write().err().expect("a reader holds the value")
}

fn write_while_written() -> BorrowMutError {
    let owner = UnsyncStorage::owner();
    let slot = owner.insert(1u8);
    let _writer = slot.try_write().expect("free");
    slot.try_write().err().expect("a writer holds the value")
}

#[test]
fn storage_answers_become_state_answers() {
    assert_eq!(finish_read(Ok::<u8, BorrowError>(4)), Ok(4));
    assert_eq!(finish_read(Err::<u8, BorrowError>(dropped_read())), Err(StateError::ScopeDropped));
    assert_eq!(finish_read(Err::<u8, BorrowError>(busy_read())), Err(StateError::Busy));
    assert_eq!(StateError::Busy.message(), "state is in use".to_string());
}

#[test]
fn refused_writes_notify_nobody() {
    let mut rt: Runtime<()> = Runtime::new();
    let state = State::new(&mut rt, 1u8);
    let id = state.state_id();
    assert!(matches!(dropped_write(), BorrowMutError::Dropped(_)));
    assert!(matches!(write_while_read(), BorrowMutError::AlreadyBorrowed(_)));
    assert!(matches!(write_while_written(), BorrowMutError::AlreadyBorrowedMut(_)));
    assert_eq!(rt.finish_write(id, Err(dropped_write())), Err(StateError::ScopeDropped));
    assert_eq!(rt.finish_write(id, Err(write_while_read())), Err(StateError::Busy));
    assert_eq!(rt.finish_write(id, Err(write_while_written())), Err(StateError::Busy));
    assert!(!rt.has_dirty_scopes());
    assert_eq!(rt.finish_write(id, Ok(())), Ok(()));
    assert_eq!(rt.take_dirty_scopes(), vec![ScopeId::root()]);
    rt.enter_scope(ScopeId(3));
    state.get(&mut rt).expect("live state");
    rt.exit_scope();
    rt.notify_subscribers(id);
    assert_eq!(rt.take_dirty_scopes(), vec![ScopeId(3)]);
}

#[test]
fn layout_values_map_to_the_renderer() {
    assert_eq!(HorizontalArrangement::SpaceBetween.to_justify_content(), JustifyContent::SpaceBetween);
    assert_eq!(HorizontalArrangement::default().to_justify_content(), JustifyContent::FlexStart);
    assert_eq!(VerticalArrangement::Bottom.to_justify_content(), JustifyContent::FlexEnd);
    assert_eq!(VerticalArrangement::default(), VerticalArrangement::Top);
    assert_eq!(HorizontalAlignment::End.to_align_items(), AlignItems::FlexEnd);
    assert_eq!(HorizontalAlignment::Center.to_justify_content(), JustifyContent::Center);
    assert_eq!(VerticalAlignment::Center.to_align_items(), AlignItems::Center);
    assert_eq!(
        Alignment2D::bottom_end(),
        Alignment2D { horizontal: HorizontalAlignment::End, vertical: VerticalAlignment::Bottom }
    );
    assert_eq!(Alignment2D::default(), Alignment2D::top_start());
    assert_eq!(Alignment2D::center().horizontal, HorizontalAlignment::Center);
    assert_eq!(Alignment2D::top_center().vertical, VerticalAlignment::Top);
    assert_eq!(Alignment2D::center_end().horizontal, HorizontalAlignment::End);
    assert_eq!(Alignment2D::center_start().vertical, VerticalAlignment::Center);
    assert_eq!(Alignment2D::top_end().horizontal, HorizontalAlignment::End);
    assert_eq!(Alignment2D::bottom_start().vertical, VerticalAlignment::Bottom);
    assert_eq!(Alignment2D::bottom_center().horizontal, HorizontalAlignment::Center);
}

#[test]
fn window_configuration_defaults_and_builders() {
    let config = WindowConfig::default();
    assert_eq!(config.title, "BECOMPOSE App");
    assert_eq!((config.width, config.height, config.resizable), (800, 600, true));
    let config = WindowConfig::new("Counter".to_string()).with_size(320, 200).resizable(false);
    assert_eq!(config.title, "Counter");
    assert_eq!((config.width, config.height, config.resizable), (320, 200, false));
    assert!(config.is_valid());
    let config = config.with_title("Other".to_string());
    assert_eq!(config.title, "Other");
    let app: BecomposeApp<u8> = BecomposeApp::new().title("T".to_string()).size(10, 20).content(7);
    assert_eq!(app.window_config.title, "T");
    assert_eq!((app.window_config.width, app.window_config.height), (10, 20));
    assert_eq!(app.content, Some(7));
    let app = app.window(WindowConfig::default());
    assert_eq!(app.window_config.width, 800);
}

#[test]
fn removed_nodes_name_the_entities_to_despawn() {
    let bridge = |n: u64| CompositionBridge { composition_id: CompositionId(n) };
    let bridges = vec![(EntityId(10), bridge(1)), (EntityId(11), bridge(2)), (EntityId(12), bridge(1))];
    assert_eq!(find_bridge(&bridges, CompositionId(1)), Some(EntityId(10)));
    assert_eq!(find_bridge(&bridges, CompositionId(3)), None);
    assert_eq!(
        entities_to_despawn(&vec![CompositionId(2), CompositionId(3), CompositionId(1)], &bridges),
        vec![EntityId(11), EntityId(10)]
    );
}

#[test]
fn registry_lists_the_children_that_lost_their_host() {
    let mut registry: ScopeRegistry<&'static str> = ScopeRegistry::new();
    registry.register_scope(ScopeId(1), "parent", None);
    registry.register_scope(ScopeId(2), "kept", Some(ScopeId(1)));
    registry.register_scope(ScopeId(3), "lost", Some(ScopeId(1)));
    registry.register_scope(ScopeId(4), "hostless", Some(ScopeId(1)));
    registry.register_scope(ScopeId(5), "elsewhere", Some(ScopeId(2)));
    registry.set_scope_root_entity(ScopeId(2), EntityId(20));
    registry.set_scope_root_entity(ScopeId(3), EntityId(30));
    registry.set_scope_root_entity(ScopeId(5), EntityId(50));
    registry.set_scope_root_entity(ScopeId(9), EntityId(90));
    assert_eq!(registry.len(), 5);
    assert!(registry.is_registered(ScopeId(3)) && !registry.is_registered(ScopeId(9)));
    assert_eq!(registry.get_scope_info(ScopeId(2)).expect("registered").content_fn, "kept");
    let present = vec![EntityId(20)];
    let mut orphans = registry.orphaned_children(ScopeId(1), &present);
    orphans.sort_by_key(|s| s.0);
    assert_eq!(orphans, vec![ScopeId(3), ScopeId(4)]);
    assert!(contains_entity(&present, EntityId(20)) && !contains_entity(&present, EntityId(30)));
    assert!(registry.unregister_scope(ScopeId(3)));
    assert!(!registry.unregister_scope(ScopeId(3)));
    // registering again refreshes the content and nothing else
    registry.register_scope(ScopeId(2), "again", None);
    let info = registry.get_scope_info(ScopeId(2)).expect("registered");
    assert_eq!(
        (info.content_fn, info.parent_scope, info.root_entity),
        ("again", Some(ScopeId(1)), Some(EntityId(20)))
    );
    assert_eq!(registry.len(), 4);
    registry.register_scope(ScopeId(4), "still hostless", Some(ScopeId(9)));
    let info = registry.get_scope_info(ScopeId(4)).expect("registered");
    assert_eq!((info.content_fn, info.parent_scope, info.root_entity), ("still hostless", Some(ScopeId(1)), None));
}

#[test]
fn a_change_is_what_the_function_makes_of_the_value() {
    assert_eq!(changed_by(20, |v: &mut i32| *v += 1), 21);
    assert_eq!(changed_by("a".to_string(), |v: &mut String| v.push('b')), "ab".to_string());
    assert_eq!(changed_by(vec![1, 2, 3], |v: &mut Vec<i32>| v.retain(|x| *x != 2)), vec![1, 3]);
    let mut n = i32::MAX;
    add_one(&mut n);
    assert_eq!(n, i32::MIN);
    take_one(&mut n);
    assert_eq!(n, i32::MAX);
    let mut m = 7;
    add_one(&mut m);
    assert_eq!(m, 8);
    take_one(&mut m);
    take_one(&mut m);
    assert_eq!(m, 6);
}

#[test]
fn update_writes_what_the_function_made() {
    let mut rt: Runtime<()> = Runtime::new();
    let state = State::new(&mut rt, vec![1u8]);
    let runs = std::cell::Cell::new(0);
    state
        .update(&mut rt, |v: &mut Vec<u8>| {
            runs.set(runs.get() + 1);
            v.push(2);
        })
        .expect("live state");
    assert_eq!(runs.get(), 1);
    assert_eq!(state.get_untracked(&rt), Ok(vec![1, 2]));
    assert_eq!(rt.take_dirty_scopes(), vec![ScopeId::root()]);
    rt.enter_scope(ScopeId(5));
    let local = State::new(&mut rt, 0i32);
    rt.exit_scope();
    rt.unregister_scope(ScopeId(5));
    assert_eq!(local.update(&mut rt, |_v: &mut i32| runs.set(runs.get() + 1)), Err(StateError::ScopeDropped));
    assert_eq!(runs.get(), 1);
    assert!(!rt.has_dirty_scopes());
}

#[test]
fn a_scope_registered_again_keeps_its_place() {
    let mut rt: Runtime<&'static str> = Runtime::new();
    rt.register_scope(ScopeId(3), "first", Some(ScopeId(1)));
    rt.set_scope_root_entity(ScopeId(3), EntityId(30));
    rt.register_scope(ScopeId(3), "second", Some(ScopeId(2)));
    let info = rt.get_scope_info(ScopeId(3)).expect("registered");
    assert_eq!(info.content_fn, "second");
    assert_eq!(info.parent_scope, Some(ScopeId(1)));
    assert_eq!(info.root_entity, Some(EntityId(30)));
}

