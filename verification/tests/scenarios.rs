use becompose::runtime::cells::StateId;
use becompose::runtime::context::Placement;
use becompose::runtime::engine::compose::{leaf, ForEach, If};
use becompose::runtime::engine::driver::FramePlan;
use becompose::runtime::engine::state::{State, StateError};
use becompose::runtime::engine::{Phase, Runtime};
use becompose::runtime::error::CompositionError;
use becompose::runtime::ids::{EntityId, ScopeId};
use std::cell::RefCell;
use std::collections::HashMap;
use std::rc::Rc;

// ---- a renderer that keeps the tree in memory ----

#[derive(Default)]
struct Tree {
    next: u64,
    parent: HashMap<u64, Option<u64>>,
    children: HashMap<u64, Vec<u64>>,
    label: HashMap<u64, String>,
    roots: Vec<u64>,
    despawned: Vec<u64>,
}

impl Tree {
    fn spawn(&mut self, label: &str) -> EntityId {
        self.next += 1;
        let id = self.next;
        self.parent.insert(id, None);
        self.children.insert(id, Vec::new());
        self.label.insert(id, label.to_string());
        EntityId(id)
    }

    fn place(&mut self, entity: EntityId, placement: Placement) {
        match placement {
            Placement::ChildOf(parent) => {
                self.parent.insert(entity.0, Some(parent.0));
                self.children.get_mut(&parent.0).expect("parent exists").push(entity.0);
            }
            Placement::CompositionRoot => self.roots.push(entity.0),
        }
    }

    fn despawn(&mut self, entity: u64) {
        let kids = self.children.remove(&entity).unwrap_or_default();
        for k in kids {
            self.despawn(k);
        }
        self.parent.remove(&entity);
        self.label.remove(&entity);
        self.despawned.push(entity);
    }

    fn despawn_children(&mut self, entity: EntityId) {
        let kids = std::mem::take(self.children.get_mut(&entity.0).expect("entity exists"));
        for k in kids {
            self.despawn(k);
        }
    }

    fn despawn_roots(&mut self) {
        let roots = std::mem::take(&mut self.roots);
        for r in roots {
            self.despawn(r);
        }
    }

    fn is_present(&self, entity: EntityId) -> bool {
        self.label.contains_key(&entity.0)
    }

    fn present(&self) -> Vec<EntityId> {
        self.label.keys().map(|k| EntityId(*k)).collect()
    }

    fn children_of(&self, entity: EntityId) -> Vec<EntityId> {
        self.children[&entity.0].iter().map(|k| EntityId(*k)).collect()
    }

    fn labels_under(&self, entity: EntityId) -> Vec<String> {
        self.children[&entity.0].iter().map(|k| self.label[k].clone()).collect()
    }

    fn shape(&self, entity: u64) -> String {
        let kids: Vec<String> = self.children[&entity].iter().map(|k| self.shape(*k)).collect();
        format!("{}[{}]", self.label[&entity], kids.join(","))
    }

    fn shape_of_roots(&self) -> Vec<String> {
        self.roots.iter().map(|r| self.shape(*r)).collect()
    }
}

// ---- the host: content closures and the frame loop ----

type Rt = Runtime<Content>;

#[derive(Clone)]
struct Content(Rc<dyn Fn(&mut Rt)>);

fn content(f: impl Fn(&mut Rt) + 'static) -> Content {
    Content(Rc::new(f))
}

type Screen = Rc<RefCell<Tree>>;

type Names = Rc<RefCell<HashMap<String, (ScopeId, EntityId)>>>;

fn text(rt: &mut Rt, screen: &Screen, label: String) -> EntityId {
    let entity = screen.borrow_mut().spawn(&label);
    let placement = leaf(rt, entity).expect("inside a pass");
    screen.borrow_mut().place(entity, placement);
    entity
}

fn column(rt: &mut Rt, screen: &Screen, names: &Names, name: &str, body: Content) -> ScopeId {
    let host = screen.borrow_mut().spawn(name);
    let placement = rt.spawn_child(host).expect("inside a pass");
    screen.borrow_mut().place(host, placement);
    assert!(rt.has_fresh_scope_id());
    let open = rt.scoped_container(host, body.clone());
    names.borrow_mut().insert(name.to_string(), (open.scope_id(), host));
    (body.0)(rt);
    rt.leave_scope(&open).expect("balanced content");
    open.scope_id()
}

fn compose_initially(rt: &mut Rt, app: &Content) {
    rt.begin_initial_composition().expect("idle runtime");
    (app.0)(rt);
    rt.finish_initial_composition().expect("balanced application");
}

#[derive(Debug, Default, PartialEq)]
struct Report {
    full: bool,
    app_runs: usize,
    rebuilt: Vec<ScopeId>,
    reaped: Vec<ScopeId>,
}

fn run_frame(rt: &mut Rt, screen: &Screen, app: &Content) -> Report {
    let mut report = Report::default();
    match rt.begin_frame().expect("idle runtime") {
        FramePlan::Skip => {}
        FramePlan::Full => {
            report.full = true;
            screen.borrow_mut().despawn_roots();
            (app.0)(rt);
            report.app_runs += 1;
            let present = screen.borrow().present();
            report.reaped = rt.finish_full_recomposition(&present).expect("balanced application");
        }
        FramePlan::Granular => {
            while let Some(rebuild) = rt.next_rebuild().expect("granular frame") {
                screen.borrow_mut().despawn_children(rebuild.root_entity);
                let body = rt.get_scope_info(rebuild.scope).expect("registered").content_fn.clone();
                (body.0)(rt);
                let present = screen.borrow().present();
                let mut gone = rt.finish_rebuild(&present).expect("balanced content");
                report.reaped.append(&mut gone);
                report.rebuilt.push(rebuild.scope);
            }
        }
    }
    report.rebuilt.sort_by_key(|s| s.0);
    report.reaped.sort_by_key(|s| s.0);
    report
}

fn subscribers(rt: &Rt, id: StateId) -> Vec<ScopeId> {
    let mut list = rt.state_cells().subscribers_of(id);
    list.sort_by_key(|s| s.0);
    list
}

fn dirty(rt: &mut Rt) -> Vec<ScopeId> {
    let mut drained = rt.take_dirty_scopes();
    drained.sort_by_key(|s| s.0);
    for s in drained.iter() {
        rt.mark_scope_dirty(*s);
    }
    drained
}

struct Counters {
    rt: Rt,
    screen: Screen,
    names: Names,
    app: Content,
    a: State<i32>,
    b: State<i32>,
}

fn two_counters() -> Counters {
    let mut rt: Rt = Runtime::new();
    let screen: Screen = Rc::new(RefCell::new(Tree::default()));
    let names: Names = Rc::new(RefCell::new(HashMap::new()));
    let a = State::new(&mut rt, 0);
    let b = State::new(&mut rt, 0);
    let (s, n) = (screen.clone(), names.clone());
    let app = content(move |rt| {
        let s1 = s.clone();
        column(rt, &s, &n, "ColA", content(move |rt| {
            let value = a.get(rt).expect("live state");
            text(rt, &s1, format!("{}", value));
        }));
        let s2 = s.clone();
        column(rt, &s, &n, "ColB", content(move |rt| {
            let value = b.get(rt).expect("live state");
            text(rt, &s2, format!("{}", value));
        }));
    });
    compose_initially(&mut rt, &app);
    Counters { rt, screen, names, app, a, b }
}

// ---- scenarios ----

#[test]
fn two_independent_counters_rebuild_only_the_reader() {
    let mut c = two_counters();
    let (col_a, host_a) = c.names.borrow()["ColA"];
    let (col_b, host_b) = c.names.borrow()["ColB"];
    assert_eq!(c.screen.borrow().labels_under(host_a), vec!["0".to_string()]);
    assert_eq!(c.screen.borrow().labels_under(host_b), vec!["0".to_string()]);
    let text_b = c.screen.borrow().children_of(host_b)[0];
    assert_eq!(subscribers(&c.rt, c.a.state_id()), vec![col_a]);
    assert_eq!(subscribers(&c.rt, c.b.state_id()), vec![col_b]);

    c.a.set(&mut c.rt, 1).expect("live state");
    assert_eq!(dirty(&mut c.rt), vec![col_a]);

    let report = run_frame(&mut c.rt, &c.screen, &c.app);
    assert!(!report.full);
    assert_eq!(report.app_runs, 0);
    assert_eq!(report.rebuilt, vec![col_a]);
    assert_eq!(c.screen.borrow().labels_under(host_a), vec!["1".to_string()]);
    assert_eq!(c.screen.borrow().labels_under(host_b), vec!["0".to_string()]);
    assert!(c.screen.borrow().is_present(text_b));
    assert_eq!(c.screen.borrow().children_of(host_b), vec![text_b]);
    assert!(c.screen.borrow().is_present(host_a));
    assert!(!c.rt.has_dirty_scopes());
    assert_eq!(c.rt.current_phase(), Phase::Idle);
    assert!(c.rt.composition_context().is_idle());
}

#[test]
fn untracked_read_does_not_subscribe_the_handler_scope() {
    let mut rt: Rt = Runtime::new();
    let screen: Screen = Rc::new(RefCell::new(Tree::default()));
    let names: Names = Rc::new(RefCell::new(HashMap::new()));
    let a = State::new(&mut rt, 5);
    let click: Rc<dyn Fn(&mut Rt)> = Rc::new(move |rt: &mut Rt| {
        let seen = a.get_untracked(rt).expect("live state");
        a.set(rt, seen + 1).expect("live state");
    });
    let (s, n) = (screen.clone(), names.clone());
    let app = content(move |rt| {
        let s1 = s.clone();
        column(rt, &s, &n, "Reader", content(move |rt| {
            let value = a.get(rt).expect("live state");
            text(rt, &s1, format!("{}", value));
        }));
        let s2 = s.clone();
        column(rt, &s, &n, "Buttons", content(move |rt| {
            let host = s2.borrow_mut().spawn("button");
            let label = s2.borrow_mut().spawn("Increment");
            let (outer, inner) =
                becompose::runtime::engine::compose::interactive_leaf(rt, host, label).expect("inside a pass");
            s2.borrow_mut().place(host, outer);
            s2.borrow_mut().place(label, inner);
        }));
    });
    compose_initially(&mut rt, &app);
    let (reader, reader_host) = names.borrow()["Reader"];
    let (buttons, buttons_host) = names.borrow()["Buttons"];
    assert_eq!(subscribers(&rt, a.state_id()), vec![reader]);
    let button = screen.borrow().children_of(buttons_host)[0];
    assert_eq!(screen.borrow().labels_under(button), vec!["Increment".to_string()]);

    // the click is delivered outside any pass
    click(&mut rt);
    assert_eq!(subscribers(&rt, a.state_id()), vec![reader]);
    assert_eq!(dirty(&mut rt), vec![reader]);
    assert!(!rt.composition_context().is_active());

    let report = run_frame(&mut rt, &screen, &app);
    assert_eq!(report.rebuilt, vec![reader]);
    assert!(!report.rebuilt.contains(&buttons));
    assert_eq!(screen.borrow().labels_under(reader_host), vec!["6".to_string()]);
    assert!(screen.borrow().is_present(button));
    assert_eq!(subscribers(&rt, a.state_id()), vec![reader]);
}

#[test]
fn conditional_subtree_subscribes_and_unsubscribes() {
    let mut rt: Rt = Runtime::new();
    let screen: Screen = Rc::new(RefCell::new(Tree::default()));
    let names: Names = Rc::new(RefCell::new(HashMap::new()));
    let flag = State::new(&mut rt, false);
    let a = State::new(&mut rt, 7);
    let (s, n) = (screen.clone(), names.clone());
    let app = content(move |rt| {
        let s1 = s.clone();
        column(rt, &s, &n, "Col", content(move |rt| {
            let shown = flag.get(rt).expect("live state");
            let s2 = s1.clone();
            If(rt, shown, move |rt: &mut Rt| {
                let value = a.get(rt).expect("live state");
                text(rt, &s2, format!("{}", value));
            })
            .expect("balanced branch");
        }));
    });
    compose_initially(&mut rt, &app);
    let (col, host) = names.borrow()["Col"];
    assert_eq!(subscribers(&rt, flag.state_id()), vec![col]);
    assert_eq!(subscribers(&rt, a.state_id()), Vec::<ScopeId>::new());
    assert!(screen.borrow().children_of(host).is_empty());

    flag.set(&mut rt, true).expect("live state");
    let report = run_frame(&mut rt, &screen, &app);
    assert_eq!(report.rebuilt, vec![col]);
    assert_eq!(subscribers(&rt, flag.state_id()), vec![col]);
    assert_eq!(subscribers(&rt, a.state_id()), vec![col]);
    assert_eq!(screen.borrow().labels_under(host), vec!["7".to_string()]);
    let shown_text = screen.borrow().children_of(host)[0];
    assert_eq!(rt.get_scope_entities(col), vec![shown_text]);

    flag.set(&mut rt, false).expect("live state");
    let report = run_frame(&mut rt, &screen, &app);
    assert_eq!(report.rebuilt, vec![col]);
    assert!(!screen.borrow().is_present(shown_text));
    assert!(screen.borrow().children_of(host).is_empty());
    assert_eq!(subscribers(&rt, a.state_id()), Vec::<ScopeId>::new());
    assert_eq!(subscribers(&rt, flag.state_id()), vec![col]);
    assert!(rt.get_scope_entities(col).is_empty());

    // a write to the state that nobody reads falls back to the root scope
    a.set(&mut rt, 8).expect("live state");
    assert_eq!(dirty(&mut rt), vec![ScopeId::root()]);
}

#[test]
fn for_each_reconciliation_replaces_the_children() {
    let mut rt: Rt = Runtime::new();
    let screen: Screen = Rc::new(RefCell::new(Tree::default()));
    let names: Names = Rc::new(RefCell::new(HashMap::new()));
    let items = State::new(&mut rt, vec![1, 2, 3]);
    let (s, n) = (screen.clone(), names.clone());
    let app = content(move |rt| {
        let s1 = s.clone();
        column(rt, &s, &n, "List", content(move |rt| {
            let list = items.get(rt).expect("live state");
            let s2 = s1.clone();
            ForEach(rt, &list, move |rt: &mut Rt, item: &i32| {
                text(rt, &s2, format!("item {}", item));
            })
            .expect("balanced items");
        }));
    });
    compose_initially(&mut rt, &app);
    let (list, host) = names.borrow()["List"];
    let before = screen.borrow().children_of(host);
    assert_eq!(before.len(), 3);
    assert_eq!(rt.get_scope_entities(list), before);
    assert_eq!(
        screen.borrow().labels_under(host),
        vec!["item 1".to_string(), "item 2".to_string(), "item 3".to_string()]
    );

    items.set(&mut rt, vec![1, 3]).expect("live state");
    let report = run_frame(&mut rt, &screen, &app);
    assert_eq!(report.rebuilt, vec![list]);
    assert!(screen.borrow().is_present(host));
    for old in before.iter() {
        assert!(!screen.borrow().is_present(*old));
    }
    let after = screen.borrow().children_of(host);
    assert_eq!(after.len(), 2);
    assert_eq!(screen.borrow().labels_under(host), vec!["item 1".to_string(), "item 3".to_string()]);
    assert_eq!(rt.get_scope_entities(list), after);
    assert_eq!(rt.get_scope_root_entity(list), Some(after[0]));
    assert_eq!(rt.get_scope_info(list).expect("registered").root_entity, Some(host));
}

#[test]
fn root_dirty_subsumes_granular() {
    let mut c = two_counters();
    let (col_a, _) = c.names.borrow()["ColA"];
    let (col_b, _) = c.names.borrow()["ColB"];
    c.rt.mark_scope_dirty(col_a);
    c.rt.invalidate();
    c.rt.mark_scope_dirty(col_b);
    assert_eq!(dirty(&mut c.rt), vec![ScopeId::root(), col_a, col_b]);

    let report = run_frame(&mut c.rt, &c.screen, &c.app);
    assert!(report.full);
    assert_eq!(report.app_runs, 1);
    assert_eq!(report.rebuilt, Vec::<ScopeId>::new());
    assert_eq!(report.reaped, vec![col_a, col_b]);
    assert!(!c.rt.has_dirty_scopes());
    assert_eq!(c.rt.current_phase(), Phase::Idle);
    // nothing is left for a granular pass in this frame
    assert_eq!(c.rt.next_rebuild(), Err(CompositionError::NotComposing));
    assert_eq!(run_frame(&mut c.rt, &c.screen, &c.app), Report::default());

    // the scopes were emitted again under new identifiers
    let (new_a, _) = c.names.borrow()["ColA"];
    let (new_b, _) = c.names.borrow()["ColB"];
    assert!(new_a != col_a && new_b != col_b);
    assert!(c.rt.get_scope_info(col_a).is_none());
    assert!(c.rt.get_scope_info(new_a).is_some());
    assert_eq!(subscribers(&c.rt, c.a.state_id()), vec![new_a]);
    assert_eq!(subscribers(&c.rt, c.b.state_id()), vec![new_b]);
}

#[test]
fn scope_death_frees_state() {
    let mut rt: Rt = Runtime::new();
    let screen: Screen = Rc::new(RefCell::new(Tree::default()));
    let names: Names = Rc::new(RefCell::new(HashMap::new()));
    let show = State::new(&mut rt, true);
    let captured: Rc<RefCell<Option<State<String>>>> = Rc::new(RefCell::new(None));
    let (s, n, cap) = (screen.clone(), names.clone(), captured.clone());
    let app = content(move |rt| {
        let (s1, n1, cap1) = (s.clone(), n.clone(), cap.clone());
        column(rt, &s, &n, "Outer", content(move |rt| {
            if show.get(rt).expect("live state") {
                let (s2, cap2) = (s1.clone(), cap1.clone());
                column(rt, &s1, &n1, "ColA", content(move |rt| {
                    assert!(rt.has_fresh_state_id());
                    let local = State::new(rt, "local".to_string());
                    *cap2.borrow_mut() = Some(local);
                    let value = local.get(rt).expect("live state");
                    text(rt, &s2, value);
                }));
            }
        }));
    });
    compose_initially(&mut rt, &app);
    let (outer, _) = names.borrow()["Outer"];
    let (col_a, host_a) = names.borrow()["ColA"];
    let handle = captured.borrow().expect("created during composition");
    assert!(rt.state_cells().has_arena(col_a));
    assert!(rt.state_cells().is_live(handle.state_id()));
    assert_eq!(handle.get_untracked(&rt), Ok("local".to_string()));
    assert_eq!(screen.borrow().labels_under(host_a), vec!["local".to_string()]);

    show.set(&mut rt, false).expect("live state");
    let report = run_frame(&mut rt, &screen, &app);
    assert_eq!(report.rebuilt, vec![outer]);
    assert_eq!(report.reaped, vec![col_a]);
    assert!(!screen.borrow().is_present(host_a));
    assert!(rt.get_scope_info(col_a).is_none());
    assert!(!rt.state_cells().has_arena(col_a));
    assert!(!rt.state_cells().is_live(handle.state_id()));
    assert_eq!(handle.get(&mut rt), Err(StateError::ScopeDropped));
    assert_eq!(handle.get_untracked(&rt), Err(StateError::ScopeDropped));
    assert_eq!(handle.set(&mut rt, "late".to_string()), Err(StateError::ScopeDropped));
    assert_eq!(StateError::ScopeDropped.message(), "scope dropped".to_string());
    assert!(!rt.has_dirty_scopes());
}

// ---- the invariants, on concrete values ----

#[test]
fn granular_rebuild_matches_a_rebuild_from_scratch() {
    let mut c = two_counters();
    c.a.set(&mut c.rt, 4).expect("live state");
    run_frame(&mut c.rt, &c.screen, &c.app);
    c.b.set(&mut c.rt, 9).expect("live state");
    run_frame(&mut c.rt, &c.screen, &c.app);
    let granular = c.screen.borrow().shape_of_roots();
    assert_eq!(granular, vec!["ColA[4[]]".to_string(), "ColB[9[]]".to_string()]);

    c.rt.invalidate();
    let report = run_frame(&mut c.rt, &c.screen, &c.app);
    assert!(report.full);
    assert_eq!(c.screen.borrow().shape_of_roots(), granular);
}

#[test]
fn stacks_are_empty_after_every_pass() {
    let mut c = two_counters();
    assert!(c.rt.composition_context().is_idle());
    assert_eq!(c.rt.current_scope_id(), None);
    assert_eq!(c.rt.get_current_parent(), None);
    c.a.set(&mut c.rt, 2).expect("live state");
    run_frame(&mut c.rt, &c.screen, &c.app);
    assert!(c.rt.composition_context().is_idle());
    c.rt.invalidate();
    run_frame(&mut c.rt, &c.screen, &c.app);
    assert!(c.rt.composition_context().is_idle());
    assert_eq!(c.rt.composition_context().scope_depth(), 0);
    assert_eq!(c.rt.composition_context().parent_depth(), 0);
}

#[test]
fn initial_composition_twice_gives_the_same_shape() {
    let first = two_counters();
    let second = two_counters();
    assert_eq!(first.screen.borrow().shape_of_roots(), second.screen.borrow().shape_of_roots());
    assert_eq!(
        first.screen.borrow().shape_of_roots(),
        vec!["ColA[0[]]".to_string(), "ColB[0[]]".to_string()]
    );
}

#[test]
fn writes_during_a_rebuild_wait_for_the_next_frame() {
    let mut rt: Rt = Runtime::new();
    let screen: Screen = Rc::new(RefCell::new(Tree::default()));
    let names: Names = Rc::new(RefCell::new(HashMap::new()));
    let a = State::new(&mut rt, 0);
    let echo = State::new(&mut rt, 0);
    let (s, n) = (screen.clone(), names.clone());
    let app = content(move |rt| {
        let s1 = s.clone();
        column(rt, &s, &n, "Source", content(move |rt| {
            let value = a.get(rt).expect("live state");
            echo.set(rt, value).expect("live state");
            text(rt, &s1, format!("{}", value));
        }));
        let s2 = s.clone();
        column(rt, &s, &n, "Echo", content(move |rt| {
            let value = echo.get(rt).expect("live state");
            text(rt, &s2, format!("{}", value));
        }));
    });
    compose_initially(&mut rt, &app);
    let (source, _) = names.borrow()["Source"];
    let (echo_scope, echo_host) = names.borrow()["Echo"];
    // the write during the initial composition found no subscriber yet
    assert_eq!(dirty(&mut rt), vec![ScopeId::root()]);
    rt.take_dirty_scopes();

    a.set(&mut rt, 3).expect("live state");
    let report = run_frame(&mut rt, &screen, &app);
    assert_eq!(report.rebuilt, vec![source]);
    assert_eq!(screen.borrow().labels_under(echo_host), vec!["0".to_string()]);
    assert_eq!(dirty(&mut rt), vec![echo_scope]);
    let report = run_frame(&mut rt, &screen, &app);
    assert_eq!(report.rebuilt, vec![echo_scope]);
    assert_eq!(screen.borrow().labels_under(echo_host), vec!["3".to_string()]);
}

#[test]
fn unbalanced_content_is_detected() {
    let mut rt: Rt = Runtime::new();
    rt.begin_initial_composition().expect("idle runtime");
    rt.push_parent(EntityId(9));
    assert_eq!(rt.finish_initial_composition(), Err(CompositionError::Unbalanced));
    assert!(!rt.is_initialized());
    assert!(rt.composition_context().is_idle());

    let open = rt.enter_implicit_scope();
    rt.enter_scope(ScopeId(4));
    assert_eq!(rt.leave_scope(&open), Err(CompositionError::Unbalanced));
    rt.exit_scope();
    assert_eq!(rt.leave_scope(&open), Ok(()));
    assert_eq!(rt.current_scope_id(), None);
}

#[test]
fn frames_are_skipped_until_something_is_dirty() {
    let mut rt: Rt = Runtime::new();
    rt.mark_scope_dirty(ScopeId(3));
    // not initialized yet: the mark stays
    assert_eq!(rt.begin_frame(), Ok(FramePlan::Skip));
    assert!(rt.has_dirty_scopes());
    rt.begin_initial_composition().expect("idle runtime");
    assert_eq!(rt.begin_frame(), Err(CompositionError::AlreadyComposing));
    assert_eq!(rt.begin_initial_composition(), Err(CompositionError::AlreadyComposing));
    rt.finish_initial_composition().expect("balanced");
    assert_eq!(rt.finish_initial_composition(), Err(CompositionError::NotComposing));
    assert!(rt.is_initialized());

    // a dirty scope that is not registered is passed over
    assert_eq!(rt.begin_frame(), Ok(FramePlan::Granular));
    assert_eq!(rt.current_phase(), Phase::Granular);
    assert_eq!(rt.next_rebuild(), Ok(None));
    assert_eq!(rt.current_phase(), Phase::Idle);
    assert_eq!(rt.begin_frame(), Ok(FramePlan::Skip));
    assert_eq!(rt.finish_rebuild(&Vec::new()), Err(CompositionError::NotComposing));
    assert_eq!(rt.finish_full_recomposition(&Vec::new()), Err(CompositionError::NotComposing));
}

#[test]
fn spawn_child_places_entities() {
    let mut rt: Rt = Runtime::new();
    assert_eq!(rt.spawn_child(EntityId(1)), Err(CompositionError::NotComposing));
    assert_eq!(CompositionError::NotComposing.message(), "no composition pass is active".to_string());
    rt.begin_composition();
    assert_eq!(rt.spawn_child(EntityId(1)), Ok(Placement::CompositionRoot));
    assert!(rt.get_scope_entities(ScopeId::root()).is_empty());
    rt.enter_scope(ScopeId(5));
    rt.push_parent(EntityId(1));
    assert_eq!(rt.spawn_child(EntityId(2)), Ok(Placement::ChildOf(EntityId(1))));
    assert_eq!(rt.spawn_child(EntityId(3)), Ok(Placement::ChildOf(EntityId(1))));
    assert_eq!(rt.get_scope_entities(ScopeId(5)), vec![EntityId(2), EntityId(3)]);
    assert_eq!(rt.get_scope_root_entity(ScopeId(5)), Some(EntityId(2)));
    rt.clear_scope_mapping(ScopeId(5));
    assert!(rt.get_scope_entities(ScopeId(5)).is_empty());
    assert_eq!(rt.get_scope_root_entity(ScopeId(5)), None);
    assert_eq!(rt.current_scope_id(), Some(ScopeId(5)));
    rt.pop_parent();
    rt.exit_scope();
    rt.end_composition();
    assert!(rt.composition_context().is_idle());
}

#[test]
fn state_helpers_notify_like_set() {
    let mut rt: Rt = Runtime::new();
    let n = State::new(&mut rt, i32::MAX);
    n.increment(&mut rt).expect("live state");
    assert_eq!(n.get_untracked(&rt), Ok(i32::MIN));
    n.decrement(&mut rt).expect("live state");
    assert_eq!(n.get_untracked(&rt), Ok(i32::MAX));
    assert_eq!(dirty(&mut rt), vec![ScopeId::root()]);
    rt.take_dirty_scopes();

    n.set_silent(&rt, 10).expect("live state");
    assert_eq!(n.get_untracked(&rt), Ok(10));
    assert!(!rt.has_dirty_scopes());

    rt.enter_scope(ScopeId(2));
    assert_eq!(n.get(&mut rt), Ok(10));
    rt.exit_scope();
    n.update(&mut rt, |v: &mut i32| *v *= 3).expect("live state");
    assert_eq!(n.get_untracked(&rt), Ok(30));
    assert_eq!(dirty(&mut rt), vec![ScopeId(2)]);
    n.clear_subscribers(&mut rt);
    assert_eq!(subscribers(&rt, n.state_id()), Vec::<ScopeId>::new());

    let copy = n;
    copy.set(&mut rt, 31).expect("live state");
    assert_eq!(n.get_untracked(&rt), Ok(31));
}

#[test]
fn unregistering_a_scope_drops_its_arena_only() {
    let mut rt: Rt = Runtime::new();
    let global = State::new(&mut rt, 1u8);
    rt.enter_scope(ScopeId(7));
    let in_seven = State::new(&mut rt, 2u8);
    rt.exit_scope();
    rt.enter_scope(ScopeId(8));
    let in_eight = State::new(&mut rt, 3u8);
    rt.exit_scope();
    assert_eq!(global.state_id(), StateId(0));
    assert_eq!(in_seven.state_id(), StateId(1));
    rt.register_scope(ScopeId(7), content(|_| {}), None);
    rt.set_scope_root_entity(ScopeId(7), EntityId(70));
    assert_eq!(rt.get_scope_info(ScopeId(7)).expect("registered").root_entity, Some(EntityId(70)));
    rt.unregister_scope(ScopeId(7));
    assert!(rt.get_scope_info(ScopeId(7)).is_none());
    assert_eq!(in_seven.get_untracked(&rt), Err(StateError::ScopeDropped));
    assert_eq!(in_eight.get_untracked(&rt), Ok(3));
    assert_eq!(global.get_untracked(&rt), Ok(1));
}

#[test]
fn nested_scopes_die_with_their_enclosing_scope() {
    let mut rt: Rt = Runtime::new();
    let screen: Screen = Rc::new(RefCell::new(Tree::default()));
    let names: Names = Rc::new(RefCell::new(HashMap::new()));
    let show = State::new(&mut rt, true);
    let captured: Rc<RefCell<Option<State<i32>>>> = Rc::new(RefCell::new(None));
    let (s, n, cap) = (screen.clone(), names.clone(), captured.clone());
    let app = content(move |rt| {
        let (s1, n1, cap1) = (s.clone(), n.clone(), cap.clone());
        column(rt, &s, &n, "Outer", content(move |rt| {
            if show.get(rt).expect("live state") {
                let (s2, n2, cap2) = (s1.clone(), n1.clone(), cap1.clone());
                column(rt, &s1, &n1, "Middle", content(move |rt| {
                    let (s3, cap3) = (s2.clone(), cap2.clone());
                    column(rt, &s2, &n2, "Inner", content(move |rt| {
                        let local = State::new(rt, 5);
                        *cap3.borrow_mut() = Some(local);
                        text(rt, &s3, "leaf".to_string());
                    }));
                }));
            }
        }));
        let s4 = s.clone();
        column(rt, &s, &n, "Sibling", content(move |rt| {
            text(rt, &s4, "stays".to_string());
        }));
    });
    compose_initially(&mut rt, &app);
    let (outer, _) = names.borrow()["Outer"];
    let (middle, _) = names.borrow()["Middle"];
    let (inner, inner_host) = names.borrow()["Inner"];
    let (sibling, sibling_host) = names.borrow()["Sibling"];
    let handle = captured.borrow().expect("created during composition");
    assert_eq!(rt.get_scope_info(inner).expect("registered").parent_scope, Some(middle));
    assert_eq!(rt.get_scope_info(middle).expect("registered").parent_scope, Some(outer));
    assert_eq!(rt.get_scope_info(outer).expect("registered").parent_scope, Some(ScopeId::root()));
    assert!(rt.state_cells().has_arena(inner));

    show.set(&mut rt, false).expect("live state");
    let report = run_frame(&mut rt, &screen, &app);
    assert_eq!(report.rebuilt, vec![outer]);
    assert_eq!(report.reaped, vec![middle, inner]);
    assert!(!screen.borrow().is_present(inner_host));
    assert!(rt.get_scope_info(middle).is_none());
    assert!(rt.get_scope_info(inner).is_none());
    assert!(!rt.state_cells().has_arena(inner));
    assert_eq!(handle.get(&mut rt), Err(StateError::ScopeDropped));
    // what did not hang below the rebuilt scope is untouched
    assert!(rt.get_scope_info(sibling).is_some());
    assert!(screen.borrow().is_present(sibling_host));
    assert_eq!(rt.reap_children(outer, &screen.borrow().present()), Vec::<ScopeId>::new());
}

#[test]
fn a_scope_and_its_enclosing_scope_dirty_in_one_frame() {
    let mut rt: Rt = Runtime::new();
    let screen: Screen = Rc::new(RefCell::new(Tree::default()));
    let names: Names = Rc::new(RefCell::new(HashMap::new()));
    let outer_value = State::new(&mut rt, 1);
    let inner_value = State::new(&mut rt, 10);
    let (s, n) = (screen.clone(), names.clone());
    let app = content(move |rt| {
        let (s1, n1) = (s.clone(), n.clone());
        column(rt, &s, &n, "Outer", content(move |rt| {
            let value = outer_value.get(rt).expect("live state");
            text(rt, &s1, format!("outer {}", value));
            let s2 = s1.clone();
            column(rt, &s1, &n1, "Inner", content(move |rt| {
                let value = inner_value.get(rt).expect("live state");
                text(rt, &s2, format!("inner {}", value));
            }));
        }));
    });
    compose_initially(&mut rt, &app);
    let (outer, outer_host) = names.borrow()["Outer"];
    let (old_inner, _) = names.borrow()["Inner"];

    outer_value.set(&mut rt, 2).expect("live state");
    inner_value.set(&mut rt, 20).expect("live state");
    assert_eq!(dirty(&mut rt), vec![outer, old_inner]);
    let report = run_frame(&mut rt, &screen, &app);
    // whichever came first, the old inner scope is gone and the tree is right
    assert!(report.rebuilt.contains(&outer));
    assert_eq!(report.reaped, vec![old_inner]);
    let (new_inner, new_inner_host) = names.borrow()["Inner"];
    assert!(new_inner != old_inner);
    assert!(rt.get_scope_info(old_inner).is_none());
    assert!(rt.get_scope_info(new_inner).is_some());
    assert_eq!(screen.borrow().shape(outer_host.0), "Outer[outer 2[],Inner[inner 20[]]]".to_string());
    assert_eq!(screen.borrow().labels_under(new_inner_host), vec!["inner 20".to_string()]);
    assert!(subscribers(&rt, inner_value.state_id()).contains(&new_inner));
    assert!(!rt.has_dirty_scopes());
}

