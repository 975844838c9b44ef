//! Engine-wide laws, each stated over the specification models and proved
//! once and for all.

use vstd::prelude::*;

use crate::config::CycleResponse;
use crate::engine::{
    apply_node_model, apply_node_trace, apply_steps_model, remove_node_model, remove_steps_model,
    EngineOutcome, SpawnTraceView, TraceStepView as RecordStepView,
};
use crate::error::ProtoErrorView;
use crate::hooks::HookEventView;
use crate::store::{contains_id, ids_unique};
use crate::template::TemplateView;
use crate::tree::{
    cycle_of, id_index, resolve_node, resolve_steps, ResolveOutcome, StepsOutcome, TreeNodeView,
    TreeStepView,
};
use crate::world::{cap_index, caps_insert, caps_unique, has_cap, CapabilityView};

verus! {

/// Law: the store holds at most one entry per identifier — two distinct
/// positions of a well-formed store never carry the same identifier.
pub proof fn lemma_store_unique(s: Seq<TemplateView>, i: int, j: int)
    requires
        ids_unique(s),
        0 <= i < s.len(),
        0 <= j < s.len(),
        i != j,
    ensures
        s[i].id != s[j].id,
{
}

/// The first entry named `id`, walking the store front to back.
pub open spec fn spec_lookup(s: Seq<TemplateView>, id: Seq<char>) -> Option<TemplateView>
    decreases s.len(),
{
    if s.len() == 0 {
        Option::None
    } else if s[0].id == id {
        Option::Some(s[0])
    } else {
        spec_lookup(s.drop_first(), id)
    }
}

/// Law: a reload preserves identity. When two stores agree pointwise on
/// identifiers and handles — as the store before and after a reload do —
/// looking any identifier up finds the same entry position, the same
/// identifier and the same handle.
pub proof fn lemma_reload_preserves_handle(
    pre: Seq<TemplateView>,
    post: Seq<TemplateView>,
    x: Seq<char>,
)
    requires
        post.len() == pre.len(),
        forall|i: int|
            0 <= i < pre.len() ==> #[trigger] post[i].id == pre[i].id && post[i].handle
                == pre[i].handle,
    ensures
        match (spec_lookup(pre, x), spec_lookup(post, x)) {
            (Option::Some(a), Option::Some(b)) => a.handle == b.handle && a.id == b.id,
            (Option::None, Option::None) => true,
            _ => false,
        },
    decreases pre.len(),
{
    if pre.len() > 0 {
        assert(post[0].id == pre[0].id && post[0].handle == pre[0].handle);
        if pre[0].id != x {
            let dpre = pre.drop_first();
            let dpost = post.drop_first();
            assert forall|i: int|
                0 <= i < dpre.len() implies #[trigger] dpost[i].id == dpre[i].id
                && dpost[i].handle == dpre[i].handle by {
                assert(dpre[i] == pre[i + 1]);
                assert(dpost[i] == post[i + 1]);
            }
            lemma_reload_preserves_handle(dpre, dpost, x);
        }
    }
}

/// Law: cycles are pruned or fatal, by policy. For two templates that
/// depend on each other — the first's only schematic names the second and
/// the second's only schematic names the first — resolving the first under
/// the pruning response succeeds with exactly the acyclic prefix (the
/// first resolved, the second resolved under it, and the repeated edge
/// dropped), while under the fatal response resolution fails with the
/// cycle record running from the repeated identifier back to itself.
pub proof fn lemma_cycle_policy(store: Seq<TemplateView>, a: Seq<char>, b: Seq<char>)
    requires
        store.len() == 2,
        store[0].id == a,
        store[1].id == b,
        a != b,
        store[0].schematics.len() == 1,
        store[0].schematics[0].dependency == Option::Some(b),
        store[1].schematics.len() == 1,
        store[1].schematics[0].dependency == Option::Some(a),
    ensures
        match resolve_node(store, a, Seq::empty(), CycleResponse::Cancel) {
            ResolveOutcome::Done { node } => {
                &&& node.id == a
                &&& node.steps.len() == 1
                &&& match node.steps[0].child {
                    Option::Some(nb) => nb.id == b && nb.steps.len() == 1 && nb.steps[0].child
                        is None,
                    Option::None => false,
                }
            },
            ResolveOutcome::Failed { .. } => false,
        },
        resolve_node(store, a, Seq::empty(), CycleResponse::Panic) == (ResolveOutcome::Failed {
            error: ProtoErrorView::CycleDetected { path: seq![a, b, a] },
        }),
{
    assert(ids_unique(store));
    let empty = Seq::<Seq<char>>::empty();
    assert(contains_id(store, a)) by {
        assert(store[0].id == a);
    }
    assert(contains_id(store, b)) by {
        assert(store[1].id == b);
    }
    assert(!empty.contains(a));
    assert(id_index(store, a) == 0) by {
        let w = id_index(store, a);
        assert(0 <= w < 2 && store[w].id == a);
    }
    assert(id_index(store, b) == 1) by {
        let w = id_index(store, b);
        assert(0 <= w < 2 && store[w].id == b);
    }
    let pa = empty.push(a);
    let pab = pa.push(b);
    assert(!pa.contains(b)) by {
        if pa.contains(b) {
            let k = choose|k: int| 0 <= k < pa.len() && pa[k] == b;
            assert(pa[k] == a);
        }
    }
    assert(pab.contains(a)) by {
        assert(pab[0] == a);
    }
    // Resolution of the second template under the active path [a, b]: its
    // only schematic meets `a` again.
    let sb = store[1].schematics;
    assert(sb.drop_first() =~= Seq::<crate::template::SchematicView>::empty());
    let cancel = CycleResponse::Cancel;
    let panic = CycleResponse::Panic;
    assert(resolve_steps(store, sb.drop_first(), pab, cancel) == (StepsOutcome::Done {
        steps: Seq::<TreeStepView>::empty(),
    }));
    let step_b = TreeStepView {
        kind: sb[0].kind,
        payload: sb[0].payload,
        spawn_child: sb[0].spawn_child,
        child: Option::None,
    };
    assert(resolve_steps(store, sb, pab, cancel) == (StepsOutcome::Done {
        steps: seq![step_b] + Seq::<TreeStepView>::empty(),
    }));
    let node_b = TreeNodeView { id: b, steps: seq![step_b] + Seq::<TreeStepView>::empty() };
    assert(resolve_node(store, b, pa, cancel) == (ResolveOutcome::Done { node: node_b }));
    // Resolution of the first template under the empty path.
    let sa = store[0].schematics;
    assert(sa.drop_first() =~= Seq::<crate::template::SchematicView>::empty());
    assert(resolve_steps(store, sa.drop_first(), pa, cancel) == (StepsOutcome::Done {
        steps: Seq::<TreeStepView>::empty(),
    }));
    let step_a = TreeStepView {
        kind: sa[0].kind,
        payload: sa[0].payload,
        spawn_child: sa[0].spawn_child,
        child: Option::Some(node_b),
    };
    assert(resolve_steps(store, sa, pa, cancel) == (StepsOutcome::Done {
        steps: seq![step_a] + Seq::<TreeStepView>::empty(),
    }));
    assert((seq![step_a] + Seq::<TreeStepView>::empty())[0] == step_a);
    assert((seq![step_b] + Seq::<TreeStepView>::empty())[0] == step_b);
    // Under the fatal response the meeting of `a` is a failure whose record
    // runs from `a` around the cycle and back.
    assert(crate::tree::path_index_of(pab, a) == 0) by {
        let w = crate::tree::path_index_of(pab, a);
        assert(pab[0] == a);
        assert(0 <= w < pab.len() && pab[w] == a);
        if w == 1 {
            assert(pab[1] == b);
        }
    }
    assert(cycle_of(pab, a) =~= seq![a, b, a]) by {
        assert(pab.skip(0) =~= pab);
    }
    assert(resolve_steps(store, sb, pab, panic) == (StepsOutcome::Failed {
        error: ProtoErrorView::CycleDetected { path: cycle_of(pab, a) },
    }));
    assert(resolve_node(store, b, pa, panic) == (ResolveOutcome::Failed {
        error: ProtoErrorView::CycleDetected { path: cycle_of(pab, a) },
    }));
    assert(resolve_steps(store, sa, pa, panic) == (StepsOutcome::Failed {
        error: ProtoErrorView::CycleDetected { path: cycle_of(pab, a) },
    }));
}

/// Law: a missing dependency aborts resolution. A loaded template whose
/// only schematic names an unloaded identifier fails to resolve, under
/// either cycle response, with exactly that identifier reported.
pub proof fn lemma_missing_dependency(
    store: Seq<TemplateView>,
    x: Seq<char>,
    d: Seq<char>,
    response: CycleResponse,
)
    requires
        ids_unique(store),
        contains_id(store, x),
        !contains_id(store, d),
        store[id_index(store, x)].schematics.len() == 1,
        store[id_index(store, x)].schematics[0].dependency == Option::Some(d),
    ensures
        resolve_node(store, x, Seq::empty(), response) == (ResolveOutcome::Failed {
            error: ProtoErrorView::MissingDependency { id: d },
        }),
{
    let empty = Seq::<Seq<char>>::empty();
    let px = empty.push(x);
    assert(!px.contains(d)) by {
        if px.contains(d) {
            let k = choose|k: int| 0 <= k < px.len() && px[k] == d;
            assert(px[k] == x);
            assert(contains_id(store, x));
        }
    }
    let sx = store[id_index(store, x)].schematics;
    assert(resolve_steps(store, sx, px, response) == (StepsOutcome::Failed {
        error: ProtoErrorView::MissingDependency { id: d },
    }));
}

/// The schematic-level hook pairs of an apply, in declaration order: for
/// each step, its before event immediately followed by its after event.
pub open spec fn apply_pair_events(steps: Seq<TreeStepView>, o: int) -> Seq<HookEventView> {
    Seq::new(
        2 * steps.len(),
        |j: int|
            if j % 2 == 0 {
                HookEventView::BeforeApplySchematic { kind: steps[j / 2].kind, object: o }
            } else {
                HookEventView::AfterApplySchematic { kind: steps[j / 2].kind, object: o }
            },
    )
}

/// Law: deterministic order and hook completeness. Applying a node whose
/// steps have no children and whose kinds are all dispatchable succeeds,
/// and fires exactly one template-level before hook, then one pair of
/// schematic-level hooks per schematic in declaration order, then one
/// template-level after hook — nothing else, in that nesting order.
pub proof fn lemma_apply_order_and_hooks(
    node: TreeNodeView,
    o: int,
    world: Seq<Seq<CapabilityView>>,
    events: Seq<HookEventView>,
    table: Seq<u64>,
)
    requires
        forall|i: int|
            0 <= i < node.steps.len() ==> (#[trigger] node.steps[i]).child is None
                && table.contains(node.steps[i].kind),
    ensures
        ({
            let m = apply_node_model(node, o, world, events, table);
            m.error is None && m.events == events.push(
                HookEventView::BeforeApplyPrototype { id: node.id, object: o },
            ) + apply_pair_events(node.steps, o) + seq![
                HookEventView::AfterApplyPrototype { id: node.id, object: o },
            ]
        }),
{
    let ev = events.push(HookEventView::BeforeApplyPrototype { id: node.id, object: o });
    lemma_apply_steps_order(node.steps, o, world, ev, table);
    let m = apply_node_model(node, o, world, events, table);
    assert(m.events =~= ev + apply_pair_events(node.steps, o) + seq![
        HookEventView::AfterApplyPrototype { id: node.id, object: o },
    ]);
}

/// Applying childless, dispatchable steps appends exactly their hook pairs.
proof fn lemma_apply_steps_order(
    steps: Seq<TreeStepView>,
    o: int,
    world: Seq<Seq<CapabilityView>>,
    events: Seq<HookEventView>,
    table: Seq<u64>,
)
    requires
        forall|i: int|
            0 <= i < steps.len() ==> (#[trigger] steps[i]).child is None && table.contains(
                steps[i].kind,
            ),
    ensures
        ({
            let m = apply_steps_model(steps, o, world, events, table);
            m.error is None && m.events == events + apply_pair_events(steps, o)
        }),
    decreases steps.len(),
{
    if steps.len() == 0 {
        assert(events + apply_pair_events(steps, o) =~= events);
    } else {
        let s = steps[0];
        let ev2 = events.push(HookEventView::BeforeApplySchematic { kind: s.kind, object: o }).push(
            HookEventView::AfterApplySchematic { kind: s.kind, object: o },
        );
        let w1 = crate::world::world_insert(world, o, s.kind, s.payload);
        assert forall|i: int|
            0 <= i < steps.drop_first().len() implies (#[trigger] steps.drop_first()[i]).child
            is None && table.contains(steps.drop_first()[i].kind) by {
            assert(steps.drop_first()[i] == steps[i + 1]);
        }
        lemma_apply_steps_order(steps.drop_first(), o, w1, ev2, table);
        assert(ev2 + apply_pair_events(steps.drop_first(), o) =~= events + apply_pair_events(
            steps,
            o,
        )) by {
            assert forall|j: int|
                0 <= j < apply_pair_events(steps, o).len() implies (events + apply_pair_events(
                steps,
                o,
            ))[events.len() + j] == apply_pair_events(steps, o)[j] by {}
            assert(apply_pair_events(steps, o)[0] == HookEventView::BeforeApplySchematic {
                kind: s.kind,
                object: o,
            });
            assert(apply_pair_events(steps, o)[1] == HookEventView::AfterApplySchematic {
                kind: s.kind,
                object: o,
            });
            assert forall|j: int|
                0 <= j < apply_pair_events(steps.drop_first(), o).len() implies apply_pair_events(
                steps.drop_first(),
                o,
            )[j] == apply_pair_events(steps, o)[j + 2] by {
                assert(steps.drop_first()[j / 2] == steps[j / 2 + 1]);
                assert((j + 2) / 2 == j / 2 + 1);
                assert((j + 2) % 2 == j % 2);
            }
        }
    }
}

/// The schematic-level hook pairs of a removal: for each step, taken in
/// reverse declaration order, its before event immediately followed by its
/// after event.
pub open spec fn remove_pair_events(steps: Seq<TreeStepView>, o: int) -> Seq<HookEventView> {
    Seq::new(
        2 * steps.len(),
        |j: int|
            if j % 2 == 0 {
                HookEventView::BeforeRemoveSchematic {
                    kind: steps[steps.len() - 1 - j / 2].kind,
                    object: o,
                }
            } else {
                HookEventView::AfterRemoveSchematic {
                    kind: steps[steps.len() - 1 - j / 2].kind,
                    object: o,
                }
            },
    )
}

/// Law: removal mirrors application. Removing a node whose steps have no
/// children and whose kinds are all dispatchable succeeds and fires its
/// schematic-level hook pairs in exactly the reverse of declaration order
/// — the order the schematics were applied in — inside one pair of
/// template-level hooks.
pub proof fn lemma_remove_mirrors_apply(
    node: TreeNodeView,
    o: int,
    world: Seq<Seq<CapabilityView>>,
    events: Seq<HookEventView>,
    table: Seq<u64>,
    trace: SpawnTraceView,
)
    requires
        forall|i: int|
            0 <= i < node.steps.len() ==> (#[trigger] node.steps[i]).child is None
                && table.contains(node.steps[i].kind),
    ensures
        ({
            let m = remove_node_model(node, o, world, events, table, trace);
            m.error is None && m.events == events.push(
                HookEventView::BeforeRemovePrototype { id: node.id, object: o },
            ) + remove_pair_events(node.steps, o) + seq![
                HookEventView::AfterRemovePrototype { id: node.id, object: o },
            ]
        }),
{
    let ev = events.push(HookEventView::BeforeRemovePrototype { id: node.id, object: o });
    lemma_remove_steps_order(node.steps, o, world, ev, table, trace.steps);
    let m = remove_node_model(node, o, world, events, table, trace);
    assert(m.events =~= ev + remove_pair_events(node.steps, o) + seq![
        HookEventView::AfterRemovePrototype { id: node.id, object: o },
    ]);
}

/// Removing childless, dispatchable steps appends exactly their hook
/// pairs, last step first.
proof fn lemma_remove_steps_order(
    steps: Seq<TreeStepView>,
    o: int,
    world: Seq<Seq<CapabilityView>>,
    events: Seq<HookEventView>,
    table: Seq<u64>,
    trace: Seq<RecordStepView>,
)
    requires
        forall|i: int|
            0 <= i < steps.len() ==> (#[trigger] steps[i]).child is None && table.contains(
                steps[i].kind,
            ),
    ensures
        ({
            let m = remove_steps_model(steps, o, world, events, table, trace);
            m.error is None && m.events == events + remove_pair_events(steps, o)
        }),
    decreases steps.len(),
{
    if steps.len() == 0 {
        assert(events + remove_pair_events(steps, o) =~= events);
    } else {
        let s = steps.last();
        let ev2 = events.push(HookEventView::BeforeRemoveSchematic { kind: s.kind, object: o })
            .push(HookEventView::AfterRemoveSchematic { kind: s.kind, object: o });
        let w1 = crate::world::world_remove(world, o, s.kind);
        assert forall|i: int|
            0 <= i < steps.drop_last().len() implies (#[trigger] steps.drop_last()[i]).child
            is None && table.contains(steps.drop_last()[i].kind) by {
            assert(steps.drop_last()[i] == steps[i]);
        }
        lemma_remove_steps_order(steps.drop_last(), o, w1, ev2, table, trace);
        assert(ev2 + remove_pair_events(steps.drop_last(), o) =~= events + remove_pair_events(
            steps,
            o,
        )) by {
            assert(remove_pair_events(steps, o)[0] == HookEventView::BeforeRemoveSchematic {
                kind: s.kind,
                object: o,
            });
            assert(remove_pair_events(steps, o)[1] == HookEventView::AfterRemoveSchematic {
                kind: s.kind,
                object: o,
            });
            assert forall|j: int|
                0 <= j < remove_pair_events(steps.drop_last(), o).len() implies remove_pair_events(
                steps.drop_last(),
                o,
            )[j] == remove_pair_events(steps, o)[j + 2] by {
                assert(steps.drop_last()[steps.drop_last().len() - 1 - j / 2] == steps[steps.len()
                    - 2 - j / 2]);
                assert((j + 2) / 2 == j / 2 + 1);
                assert((j + 2) % 2 == j % 2);
            }
        }
    }
}

/// Law: teardown mirrors construction across a spawn-child edge. For a
/// template whose only schematic applied a child template to a freshly
/// created object — recorded as `co` with the child's own record `ct` —
/// removal with that record succeeds and fires, in mirror order, exactly
/// one pair of template-level remove hooks for the parent on its object
/// and one for the child on the recorded object, with the child's
/// schematic-level pairs in reverse declaration order between them.
pub proof fn lemma_remove_reaches_spawned_child(
    node: TreeNodeView,
    c: TreeNodeView,
    o: int,
    co: int,
    ct: SpawnTraceView,
    world: Seq<Seq<CapabilityView>>,
    events: Seq<HookEventView>,
    table: Seq<u64>,
    trace: SpawnTraceView,
)
    requires
        node.steps.len() == 1,
        node.steps[0].spawn_child,
        node.steps[0].child == Option::Some(c),
        table.contains(node.steps[0].kind),
        forall|i: int|
            0 <= i < c.steps.len() ==> (#[trigger] c.steps[i]).child is None && table.contains(
                c.steps[i].kind,
            ),
        trace.steps.len() == 1,
        trace.steps[0].spawned == Option::Some(co),
        trace.steps[0].child == Option::Some(ct),
        0 <= co < world.len(),
    ensures
        ({
            let m = remove_node_model(node, o, world, events, table, trace);
            let k = node.steps[0].kind;
            m.error is None && m.events == events.push(
                HookEventView::BeforeRemovePrototype { id: node.id, object: o },
            ).push(HookEventView::BeforeRemoveSchematic { kind: k, object: o }).push(
                HookEventView::BeforeRemovePrototype { id: c.id, object: co },
            ) + remove_pair_events(c.steps, co) + seq![
                HookEventView::AfterRemovePrototype { id: c.id, object: co },
                HookEventView::AfterRemoveSchematic { kind: k, object: o },
                HookEventView::AfterRemovePrototype { id: node.id, object: o },
            ]
        }),
{
    let k = node.steps[0].kind;
    let ev = events.push(HookEventView::BeforeRemovePrototype { id: node.id, object: o });
    let ev1 = ev.push(HookEventView::BeforeRemoveSchematic { kind: k, object: o });
    assert(node.steps.last() == node.steps[0]);
    lemma_remove_mirrors_apply(c, co, world, ev1, table, ct);
    let mc = remove_node_model(c, co, world, ev1, table, ct);
    assert(node.steps.drop_last() == Seq::<TreeStepView>::empty()) by {
        assert(node.steps.drop_last() =~= Seq::<TreeStepView>::empty());
    }
    let w2 = crate::world::world_remove(mc.world, o, k);
    let ev2 = mc.events.push(HookEventView::AfterRemoveSchematic { kind: k, object: o });
    assert(remove_steps_model(Seq::<TreeStepView>::empty(), o, w2, ev2, table, trace.steps)
        == (EngineOutcome { world: w2, events: ev2, error: Option::<ProtoErrorView>::None }));
    assert(remove_steps_model(node.steps, o, world, ev, table, trace.steps) == (EngineOutcome {
        world: w2,
        events: ev2,
        error: Option::<ProtoErrorView>::None,
    }));
    let m = remove_node_model(node, o, world, events, table, trace);
    assert(m.error is None);
    assert(m.events =~= ev.push(HookEventView::BeforeRemoveSchematic { kind: k, object: o }).push(
        HookEventView::BeforeRemovePrototype { id: c.id, object: co },
    ) + remove_pair_events(c.steps, co) + seq![
        HookEventView::AfterRemovePrototype { id: c.id, object: co },
        HookEventView::AfterRemoveSchematic { kind: k, object: o },
        HookEventView::AfterRemovePrototype { id: node.id, object: o },
    ]);
}

/// The full event sequence a successful application of `node` to object
/// `o` appends, with `base` objects existing when it starts: the
/// template-level pair around, for each schematic in declaration order,
/// its schematic-level pair around the nested template's own sequence.
pub open spec fn apply_events_node(node: TreeNodeView, o: int, base: int) -> Seq<HookEventView>
    decreases node,
{
    seq![HookEventView::BeforeApplyPrototype { id: node.id, object: o }] + apply_events_steps(
        node.steps,
        o,
        base,
    ) + seq![HookEventView::AfterApplyPrototype { id: node.id, object: o }]
}

/// The event sequence a successful application of `steps` appends.
pub open spec fn apply_events_steps(steps: Seq<TreeStepView>, o: int, base: int) -> Seq<
    HookEventView,
>
    decreases steps,
{
    if steps.len() == 0 {
        Seq::empty()
    } else {
        let s = steps[0];
        let inner = match s.child {
            Option::None => Seq::<HookEventView>::empty(),
            Option::Some(c) => if s.spawn_child {
                apply_events_node(c, base, base + 1)
            } else {
                apply_events_node(c, o, base)
            },
        };
        let next = match s.child {
            Option::None => base,
            Option::Some(c) => if s.spawn_child {
                apply_node_trace(c, base + 1).next
            } else {
                apply_node_trace(c, base).next
            },
        };
        seq![HookEventView::BeforeApplySchematic { kind: s.kind, object: o }] + inner + seq![
            HookEventView::AfterApplySchematic { kind: s.kind, object: o },
        ] + apply_events_steps(steps.drop_first(), o, next)
    }
}

/// The object count never shrinks across an application.
proof fn lemma_trace_next_mono_node(node: TreeNodeView, base: int)
    ensures
        apply_node_trace(node, base).next >= base,
    decreases node,
{
    lemma_trace_next_mono_steps(node.steps, base);
}

/// The object count never shrinks across a step sequence.
proof fn lemma_trace_next_mono_steps(steps: Seq<TreeStepView>, base: int)
    ensures
        crate::engine::apply_steps_trace(steps, base).next >= base,
    decreases steps,
{
    if steps.len() > 0 {
        let s = steps[0];
        let next = match s.child {
            Option::None => base,
            Option::Some(c) => if s.spawn_child {
                apply_node_trace(c, base + 1).next
            } else {
                apply_node_trace(c, base).next
            },
        };
        match s.child {
            Option::None => {},
            Option::Some(c) => {
                if s.spawn_child {
                    lemma_trace_next_mono_node(c, base + 1);
                } else {
                    lemma_trace_next_mono_node(c, base);
                }
            },
        }
        lemma_trace_next_mono_steps(steps.drop_first(), next);
    }
}

/// Law: the hook trace of a successful apply is fully determined, for any
/// tree. Whatever the prior state, a successful application of a resolved
/// node appends exactly [`apply_events_node`]: one template-level pair per
/// node, and inside it, for each schematic in declaration order — never
/// reordered — one schematic-level pair with the nested template's whole
/// sequence between its two events. Its final object count is exactly what
/// [`apply_node_trace`] gives.
pub proof fn lemma_apply_trace_shape(
    node: TreeNodeView,
    o: int,
    world: Seq<Seq<CapabilityView>>,
    events: Seq<HookEventView>,
    table: Seq<u64>,
)
    requires
        0 <= o < world.len(),
    ensures
        ({
            let m = apply_node_model(node, o, world, events, table);
            m.error is None ==> m.events == events + apply_events_node(node, o, world.len() as int)
                && m.world.len() == apply_node_trace(node, world.len() as int).next
        }),
    decreases node,
{
    let ev = events.push(HookEventView::BeforeApplyPrototype { id: node.id, object: o });
    lemma_apply_steps_shape(node.steps, o, world, ev, table);
    let ms = apply_steps_model(node.steps, o, world, ev, table);
    let m = apply_node_model(node, o, world, events, table);
    if ms.error is None {
        assert(m.events =~= ev + apply_events_steps(node.steps, o, world.len() as int) + seq![
            HookEventView::AfterApplyPrototype { id: node.id, object: o },
        ]);
        assert(m.events =~= events + apply_events_node(node, o, world.len() as int));
    }
}

/// The step-sequence half of [`lemma_apply_trace_shape`].
proof fn lemma_apply_steps_shape(
    steps: Seq<TreeStepView>,
    o: int,
    world: Seq<Seq<CapabilityView>>,
    events: Seq<HookEventView>,
    table: Seq<u64>,
)
    requires
        0 <= o < world.len(),
    ensures
        ({
            let m = apply_steps_model(steps, o, world, events, table);
            m.error is None ==> m.events == events + apply_events_steps(
                steps,
                o,
                world.len() as int,
            ) && m.world.len() == crate::engine::apply_steps_trace(
                steps,
                world.len() as int,
            ).next
        }),
    decreases steps,
{
    let base = world.len() as int;
    if steps.len() == 0 {
        assert(events + apply_events_steps(steps, o, base) =~= events);
    } else {
        let s = steps[0];
        let ev1 = events.push(HookEventView::BeforeApplySchematic { kind: s.kind, object: o });
        if table.contains(s.kind) {
            let w1 = crate::world::world_insert(world, o, s.kind, s.payload);
            assert(w1.len() == world.len());
            match s.child {
                Option::None => {
                    let ev2 = ev1.push(
                        HookEventView::AfterApplySchematic { kind: s.kind, object: o },
                    );
                    lemma_apply_steps_shape(steps.drop_first(), o, w1, ev2, table);
                    let mr = apply_steps_model(steps.drop_first(), o, w1, ev2, table);
                    if mr.error is None {
                        assert(mr.events =~= events + apply_events_steps(steps, o, base));
                    }
                },
                Option::Some(c) => {
                    let co = if s.spawn_child {
                        w1.len() as int
                    } else {
                        o
                    };
                    let w2 = if s.spawn_child {
                        w1.push(Seq::empty())
                    } else {
                        w1
                    };
                    assert(0 <= co < w2.len());
                    lemma_apply_trace_shape(c, co, w2, ev1, table);
                    let mc = apply_node_model(c, co, w2, ev1, table);
                    if mc.error is None {
                        let cbase = if s.spawn_child {
                            base + 1
                        } else {
                            base
                        };
                        assert(w2.len() == cbase);
                        if s.spawn_child {
                            lemma_trace_next_mono_node(c, base + 1);
                        } else {
                            lemma_trace_next_mono_node(c, base);
                        }
                        assert(mc.world.len() == apply_node_trace(c, cbase).next);
                        assert(0 <= o < mc.world.len());
                        let ev3 = mc.events.push(
                            HookEventView::AfterApplySchematic { kind: s.kind, object: o },
                        );
                        lemma_apply_steps_shape(steps.drop_first(), o, mc.world, ev3, table);
                        let mr = apply_steps_model(steps.drop_first(), o, mc.world, ev3, table);
                        if mr.error is None {
                            assert(mr.events =~= events + apply_events_steps(steps, o, base));
                        }
                    }
                },
            }
        }
    }
}

/// Law: a schematic's effect is idempotent. Inserting the same capability
/// twice leaves the object exactly as inserting it once does, so applying
/// one resolved tree twice to one object composes the same final state.
pub proof fn lemma_insert_idempotent(c: Seq<CapabilityView>, k: u64, p: Seq<u8>)
    requires
        caps_unique(c),
    ensures
        caps_insert(caps_insert(c, k, p), k, p) == caps_insert(c, k, p),
{
    let cap = CapabilityView { kind: k, payload: p };
    let c1 = caps_insert(c, k, p);
    if has_cap(c, k) {
        let j = cap_index(c, k);
        assert(0 <= j < c.len() && c[j].kind == k);
        assert(c1 == c.update(j, cap));
        assert(c1[j] == cap);
        assert(has_cap(c1, k));
        let w = cap_index(c1, k);
        assert(0 <= w < c1.len() && c1[w].kind == k);
        assert(w == j) by {
            if w != j {
                assert(c1[w] == c[w]);
            }
        }
        assert(caps_insert(c1, k, p) =~= c1);
    } else {
        assert(c1 == c.push(cap));
        assert(c1[c.len() as int] == cap);
        assert(has_cap(c1, k));
        let w = cap_index(c1, k);
        assert(0 <= w < c1.len() && c1[w].kind == k);
        assert(w == c.len()) by {
            if w != c.len() {
                assert(c1[w] == c[w]);
                assert(has_cap(c, k));
            }
        }
        assert(caps_insert(c1, k, p) =~= c1);
    }
}

} // verus!
