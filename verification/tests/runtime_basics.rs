use becompose::runtime::dirty::DirtySet;
use becompose::runtime::ids::{ScopeId, ScopeIds};

#[test]
fn root_scope_is_zero() {
    assert_eq!(ScopeId::root(), ScopeId(0));
    assert!(ScopeId::root().is_root());
    assert!(!ScopeId(3).is_root());
}

#[test]
fn scope_ids_are_monotonic_and_skip_root() {
    let mut ids = ScopeIds::new();
    let a = ScopeId::new(&mut ids);
    let b = ScopeId::new(&mut ids);
    let c = ids.fresh();
    assert_eq!(a, ScopeId(1));
    assert_eq!(b, ScopeId(2));
    assert_eq!(c, ScopeId(3));
    assert!(ids.has_next());
}

#[test]
fn dirty_set_drain_empties_the_set() {
    let mut dirty = DirtySet::new();
    assert!(!dirty.non_empty());
    dirty.mark(ScopeId(4));
    dirty.mark(ScopeId(2));
    dirty.mark(ScopeId(4));
    assert!(dirty.non_empty());
    assert!(dirty.contains(ScopeId(2)));
    let mut drained = dirty.drain();
    drained.sort_by_key(|s| s.0);
    assert_eq!(drained, vec![ScopeId(2), ScopeId(4)]);
    assert!(!dirty.non_empty());
    assert!(dirty.drain().is_empty());
}
