//! Composables that take their content as a closure: transient scopes and
//! the control-flow helpers built on them.

use vstd::prelude::*;
use crate::runtime::context::{entities_of, placement_under, Placement};
use crate::runtime::engine::{scope_in_charge, Runtime};
use crate::runtime::error::CompositionError;
use crate::runtime::ids::{EntityId, ScopeId};

verus! {

/// The first entities of scopes once `entity` was emitted in `scope`: it is
/// the scope's first entity unless the scope had one.
pub open spec fn first_after(first: Map<ScopeId, EntityId>, scope: ScopeId, entity: EntityId) -> Map<
    ScopeId,
    EntityId,
> {
    if first.contains_key(scope) {
        first
    } else {
        first.insert(scope, entity)
    }
}

/// Whether `inside` is `outside` with the scope in charge entered once more.
pub open spec fn entered_from<C>(inside: Runtime<C>, outside: Runtime<C>) -> bool {
    &&& inside.same_but_context(&outside)
    &&& inside.context().parents() == outside.context().parents()
    &&& inside.context().scopes() == outside.context().scopes().push(
        scope_in_charge(outside.context().scopes()),
    )
    &&& inside.context().active() == outside.context().active()
    &&& inside.context().same_ledger(&outside.context())
}

/// Whether `after` is `inside` with the topmost scope left.
pub open spec fn left_from<C>(after: Runtime<C>, inside: Runtime<C>) -> bool {
    &&& after.same_but_context(&inside)
    &&& after.context().parents() == inside.context().parents()
    &&& after.context().scopes() == inside.context().scopes().drop_last()
    &&& after.context().active() == inside.context().active()
    &&& after.context().same_ledger(&inside.context())
}

/// Runs `content` inside a transient scope. The content has to leave both
/// stacks as it found them; then the scope is left and the content's result
/// returned. Otherwise the imbalance is reported and the runtime stays as
/// the content left it.
pub fn with_implicit_scope<C, R, F: FnOnce(&mut Runtime<C>) -> R>(rt: &mut Runtime<C>, content: F) -> (result:
    Result<R, CompositionError>)
    requires
        old(rt).wf(),
        forall|run: &mut Runtime<C>| run.wf() ==> #[trigger] content.requires((run,)),
        forall|run: &mut Runtime<C>, out: R| #[trigger] content.ensures((run,), out) ==> final(run).wf(),
    ensures
        final(rt).wf(),
        exists|run: &mut Runtime<C>, out: R|
            {
                &&& entered_from(*run, *old(rt))
                &&& #[trigger] content.ensures((run,), out)
                &&& if final(run).context().parents() == run.context().parents()
                    && final(run).context().scopes() == run.context().scopes() {
                    result == Ok::<R, CompositionError>(out) && left_from(*final(rt), *final(run))
                } else {
                    result == Err::<R, CompositionError>(CompositionError::Unbalanced) && *final(rt)
                        == *final(run)
                }
            },
{
    let open = rt.enter_implicit_scope();
    let out = content(rt);
    match rt.leave_scope(&open) {
        Ok(_) => Ok(out),
        Err(e) => Err(e),
    }
}

/// Emits `content` inside a transient scope when `condition` holds, and does
/// nothing when it does not.
#[allow(non_snake_case)]
pub fn If<C, F: FnOnce(&mut Runtime<C>)>(rt: &mut Runtime<C>, condition: bool, content: F) -> (result: Result<
    (),
    CompositionError,
>)
    requires
        old(rt).wf(),
        forall|run: &mut Runtime<C>| run.wf() ==> #[trigger] content.requires((run,)),
        forall|run: &mut Runtime<C>, out: ()| #[trigger] content.ensures((run,), out) ==> final(run).wf(),
    ensures
        final(rt).wf(),
        !condition ==> result is Ok && *final(rt) == *old(rt),
        condition ==> exists|run: &mut Runtime<C>, out: ()|
            {
                &&& entered_from(*run, *old(rt))
                &&& #[trigger] content.ensures((run,), out)
                &&& if final(run).context().parents() == run.context().parents()
                    && final(run).context().scopes()
                    == run.context().scopes() {
                    result is Ok && left_from(*final(rt), *final(run))
                } else {
                    result == Err::<(), CompositionError>(CompositionError::Unbalanced) && *final(rt)
                        == *final(run)
                }
            },
{
    if condition {
        with_implicit_scope(rt, content)
    } else {
        Ok(())
    }
}

/// Emits `if_true` inside a transient scope when `condition` holds, and
/// `if_false` inside one when it does not.
#[allow(non_snake_case)]
pub fn IfElse<C, F1: FnOnce(&mut Runtime<C>), F2: FnOnce(&mut Runtime<C>)>(
    rt: &mut Runtime<C>,
    condition: bool,
    if_true: F1,
    if_false: F2,
) -> (result: Result<(), CompositionError>)
    requires
        old(rt).wf(),
        forall|run: &mut Runtime<C>| run.wf() ==> #[trigger] if_true.requires((run,)),
        forall|run: &mut Runtime<C>, out: ()| #[trigger] if_true.ensures((run,), out) ==> final(run).wf(),
        forall|run: &mut Runtime<C>| run.wf() ==> #[trigger] if_false.requires((run,)),
        forall|run: &mut Runtime<C>, out: ()| #[trigger] if_false.ensures((run,), out) ==> final(run).wf(),
    ensures
        final(rt).wf(),
        condition ==> exists|run: &mut Runtime<C>, out: ()|
            {
                &&& entered_from(*run, *old(rt))
                &&& #[trigger] if_true.ensures((run,), out)
                &&& if final(run).context().parents() == run.context().parents()
                    && final(run).context().scopes()
                    == run.context().scopes() {
                    result is Ok && left_from(*final(rt), *final(run))
                } else {
                    result == Err::<(), CompositionError>(CompositionError::Unbalanced) && *final(rt)
                        == *final(run)
                }
            },
        !condition ==> exists|run: &mut Runtime<C>, out: ()|
            {
                &&& entered_from(*run, *old(rt))
                &&& #[trigger] if_false.ensures((run,), out)
                &&& if final(run).context().parents() == run.context().parents()
                    && final(run).context().scopes()
                    == run.context().scopes() {
                    result is Ok && left_from(*final(rt), *final(run))
                } else {
                    result == Err::<(), CompositionError>(CompositionError::Unbalanced) && *final(rt)
                        == *final(run)
                }
            },
{
    if condition {
        with_implicit_scope(rt, if_true)
    } else {
        with_implicit_scope(rt, if_false)
    }
}

/// The runtime before and after the step at position `at` of a walk whose
/// states are `states`.
pub open spec fn step_at<C>(states: Seq<Runtime<C>>, at: int) -> (Runtime<C>, Runtime<C>) {
    (states[at], states[at + 1])
}

/// Emits `content` once for each item, in order, each time inside a
/// transient scope of its own. The first item whose content leaves the
/// stacks unbalanced ends the walk with an error, and the runtime stays as
/// that content left it.
#[allow(non_snake_case)]
pub fn ForEach<C, T, F: Fn(&mut Runtime<C>, &T)>(rt: &mut Runtime<C>, items: &[T], content: F) -> (result:
    Result<(), CompositionError>)
    requires
        old(rt).wf(),
        forall|run: &mut Runtime<C>, item: &T| run.wf() ==> #[trigger] content.requires((run, item)),
        forall|run: &mut Runtime<C>, item: &T, out: ()| #[trigger]
            content.ensures((run, item), out) ==> final(run).wf(),
    ensures
        final(rt).wf(),
        exists|states: Seq<Runtime<C>>, done: int|
            #![trigger states[done]]
            {
                &&& 0 <= done <= items@.len()
                &&& states.len() == done + 1
                &&& states[0] == *old(rt)
                &&& forall|i: int|
                    #![trigger step_at(states, i)]
                    0 <= i < done ==> step_at(states, i).0.wf() && exists|run: &mut Runtime<C>|
                        #![trigger content.ensures((run, &items@[i]), ())]
                        {
                            &&& entered_from(*run, step_at(states, i).0)
                            &&& content.ensures((run, &items@[i]), ())
                            &&& final(run).context().parents() == run.context().parents()
                            &&& final(run).context().scopes() == run.context().scopes()
                            &&& left_from(step_at(states, i).1, *final(run))
                        }
                &&& if done == items@.len() {
                    result is Ok && *final(rt) == states[done]
                } else {
                    &&& result == Err::<(), CompositionError>(CompositionError::Unbalanced)
                    &&& exists|run: &mut Runtime<C>|
                        #![trigger content.ensures((run, &items@[done]), ())]
                        {
                            &&& entered_from(*run, states[done])
                            &&& content.ensures((run, &items@[done]), ())
                            &&& !(final(run).context().parents() == run.context().parents()
                                && final(run).context().scopes() == run.context().scopes())
                            &&& *final(rt) == *final(run)
                        }
                }
            },
{
    let ghost mut states: Seq<Runtime<C>> = seq![*rt];
    let mut i: usize = 0;
    while i < items.len()
        invariant
            i <= items.len(),
            rt.wf(),
            states.len() == i + 1,
            states[0] == *old(rt),
            states[i as int] == *rt,
            forall|j: int|
                #![trigger step_at(states, j)]
                0 <= j < i ==> step_at(states, j).0.wf() && exists|run: &mut Runtime<C>|
                        #![trigger content.ensures((run, &items@[j]), ())]
                        {
                            &&& entered_from(*run, step_at(states, j).0)
                            &&& content.ensures((run, &items@[j]), ())
                            &&& final(run).context().parents() == run.context().parents()
                            &&& final(run).context().scopes() == run.context().scopes()
                            &&& left_from(step_at(states, j).1, *final(run))
                        },
            forall|run: &mut Runtime<C>, item: &T| run.wf() ==> #[trigger] content.requires((run, item)),
            forall|run: &mut Runtime<C>, item: &T, out: ()| #[trigger]
                content.ensures((run, item), out) ==> final(run).wf(),
        decreases items.len() - i,
    {
        let ghost before = states;
        let open = rt.enter_implicit_scope();
        content(rt, &items[i]);
        match rt.leave_scope(&open) {
            Ok(_) => {},
            Err(e) => {
                proof {
                    let done = i as int;
                    assert(exists|run: &mut Runtime<C>|
                        #![trigger content.ensures((run, &items@[done]), ())]
                        {
                            &&& entered_from(*run, states[done])
                            &&& content.ensures((run, &items@[done]), ())
                            &&& !(final(run).context().parents() == run.context().parents()
                                && final(run).context().scopes() == run.context().scopes())
                            &&& *rt == *final(run)
                        });
                }
                return Err(e);
            },
        }
        proof {
            states = states.push(*rt);
            assert forall|j: int| #![trigger step_at(states, j)] 0 <= j < i + 1 implies step_at(
                states,
                j,
            ).0.wf() && exists|run: &mut Runtime<C>|
                        #![trigger content.ensures((run, &items@[j]), ())]
                        {
                            &&& entered_from(*run, step_at(states, j).0)
                            &&& content.ensures((run, &items@[j]), ())
                            &&& final(run).context().parents() == run.context().parents()
                            &&& final(run).context().scopes() == run.context().scopes()
                            &&& left_from(step_at(states, j).1, *final(run))
                        } by {
                if j < i {
                    assert(step_at(states, j) == step_at(before, j));
                    let run = choose|run: &mut Runtime<C>|
                        #![trigger content.ensures((run, &items@[j]), ())]
                        {
                            &&& entered_from(*run, step_at(before, j).0)
                            &&& content.ensures((run, &items@[j]), ())
                            &&& final(run).context().parents() == run.context().parents()
                            &&& final(run).context().scopes() == run.context().scopes()
                            &&& left_from(step_at(before, j).1, *final(run))
                        };
                    assert(content.ensures((run, &items@[j]), ()));
                } else {
                    assert(step_at(states, j).0 == before[i as int]);
                    assert(step_at(states, j).1 == *rt);
                }
            }
        }
        i = i + 1;
    }
    assert(states[i as int] == *rt);
    Ok(())
}

/// Emits a leaf: one entity, spawned by the renderer, inside a transient
/// scope. The entity goes under the topmost parent, or among the composition
/// roots, and belongs to the scope in charge. No scope is created.
pub fn leaf<C>(rt: &mut Runtime<C>, entity: EntityId) -> (placed: Result<Placement, CompositionError>)
    ensures
        final(rt).wf() == old(rt).wf(),
        final(rt).same_but_context(old(rt)),
        final(rt).context().parents() == old(rt).context().parents(),
        final(rt).context().scopes() == old(rt).context().scopes(),
        final(rt).context().active() == old(rt).context().active(),
        !old(rt).context().active() ==> placed == Err::<Placement, CompositionError>(
            CompositionError::NotComposing,
        ) && final(rt).context().same_ledger(&old(rt).context()),
        old(rt).context().active() ==> {
            let scope = scope_in_charge(old(rt).context().scopes());
            &&& placed == Ok::<Placement, CompositionError>(placement_under(old(rt).context().parents()))
            &&& final(rt).context().owned() == old(rt).context().owned().insert(
                scope,
                entities_of(old(rt).context().owned(), scope).push(entity),
            )
            &&& final(rt).context().entity_scopes() == old(rt).context().entity_scopes().insert(entity, scope)
            &&& final(rt).context().first_entities() == first_after(
                old(rt).context().first_entities(),
                scope,
                entity,
            )
        },
{
    let open = rt.enter_implicit_scope();
    let placed = rt.spawn_child(entity);
    let left = rt.leave_scope(&open);
    assert(left is Ok);
    placed
}

/// Emits an interactive leaf: a host entity and, as its child, a label
/// entity, both spawned by the renderer, inside a transient scope. The host
/// goes under the topmost parent, or among the composition roots; both
/// belong to the scope in charge. No scope is created.
pub fn interactive_leaf<C>(rt: &mut Runtime<C>, host: EntityId, label: EntityId) -> (placed: Result<
    (Placement, Placement),
    CompositionError,
>)
    ensures
        final(rt).wf() == old(rt).wf(),
        final(rt).same_but_context(old(rt)),
        final(rt).context().parents() == old(rt).context().parents(),
        final(rt).context().scopes() == old(rt).context().scopes(),
        final(rt).context().active() == old(rt).context().active(),
        !old(rt).context().active() ==> placed == Err::<(Placement, Placement), CompositionError>(
            CompositionError::NotComposing,
        ) && final(rt).context().same_ledger(&old(rt).context()),
        old(rt).context().active() ==> {
            let scope = scope_in_charge(old(rt).context().scopes());
            &&& placed == Ok::<(Placement, Placement), CompositionError>(
                (placement_under(old(rt).context().parents()), Placement::ChildOf(host)),
            )
            &&& final(rt).context().owned() == old(rt).context().owned().insert(
                scope,
                entities_of(old(rt).context().owned(), scope).push(host).push(label),
            )
            &&& final(rt).context().entity_scopes() == old(rt).context().entity_scopes().insert(
                host,
                scope,
            ).insert(label, scope)
            &&& final(rt).context().first_entities() == first_after(
                old(rt).context().first_entities(),
                scope,
                host,
            )
        },
{
    let open = rt.enter_implicit_scope();
    let first = rt.spawn_child(host);
    let result = match first {
        Ok(outer) => {
            rt.push_parent(host);
            let second = rt.spawn_child(label);
            rt.pop_parent();
            proof {
                assert(rt.context().parents() =~= open.parents());
                let scope = scope_in_charge(old(rt).context().scopes());
                let owned = old(rt).context().owned();
                assert(rt.context().owned() =~= owned.insert(
                    scope,
                    entities_of(owned, scope).push(host).push(label),
                ));
            }
            match second {
                Ok(inner) => Ok((outer, inner)),
                Err(e) => Err(e),
            }
        },
        Err(e) => Err(e),
    };
    let left = rt.leave_scope(&open);
    assert(left is Ok);
    result
}

} // verus!
