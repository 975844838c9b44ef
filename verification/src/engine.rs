//! The application engine: walking a resolved tree, driving capability
//! inserts and removals, and recording every lifecycle boundary crossed.
//!
//! Application visits a node by firing the template-level before hook, then
//! each step in declaration order — schematic-level hooks around the
//! capability insert and, for a step with a resolved child, the child's
//! whole application on its target object — and finally the template-level
//! after hook. A successful application returns a record naming the object
//! every child subtree went to. Removal is the mirror image: steps in
//! reverse order, each tearing down its child subtree — on the object the
//! record names, so teardown reaches the children construction spawned —
//! before removing its own capability. A step whose type identifier is not
//! in the dispatch table fails, the walk halts there, and what was already
//! applied stays in place: there is no rollback.

use vstd::prelude::*;
use vstd::seq_lib::group_seq_properties;

use crate::error::{ProtoError, ProtoErrorView};
use crate::hooks::{events_view, HookEvent, HookEventView};
use crate::tree::{node_view, TreeNode, TreeNodeView, TreeStepView};
use crate::world::{world_insert, world_remove, CapabilityView, ProtoWorld};

verus! {

broadcast use {group_seq_properties, crate::hooks::lemma_events_view_push};

/// The joint outcome of a tree walk: the world, the event log, and the
/// error that halted the walk, if one did.
pub ghost struct EngineOutcome {
    /// The objects and their capabilities after the walk.
    pub world: Seq<Seq<CapabilityView>>,
    /// The full event log after the walk.
    pub events: Seq<HookEventView>,
    /// The error that halted the walk, or nothing.
    pub error: Option<ProtoErrorView>,
}

/// The mathematical content of a [`TraceStep`].
pub ghost struct TraceStepView {
    /// The freshly created object a spawn-child step applied its child
    /// template to; nothing for other steps.
    pub spawned: Option<int>,
    /// The record of the child subtree's own application, when the step
    /// had a resolved child.
    pub child: Option<SpawnTraceView>,
}

/// The mathematical content of a [`SpawnTrace`].
pub ghost struct SpawnTraceView {
    /// One entry per step of the applied node, in declaration order.
    pub steps: Seq<TraceStepView>,
}

/// The record of one step of an application: which object the step's child
/// subtree was applied to, and that subtree's own record.
pub struct TraceStep {
    /// The freshly created object a spawn-child step applied its child
    /// template to; nothing for other steps.
    pub spawned: Option<usize>,
    /// The record of the child subtree's own application, when the step
    /// had a resolved child.
    pub child: Option<Box<SpawnTrace>>,
}

/// The record a successful application returns: for every step of the
/// tree, which object its child subtree went to. Removal consumes it so
/// that teardown reaches the same objects construction did.
pub struct SpawnTrace {
    /// One entry per step of the applied node, in declaration order.
    pub steps: Vec<TraceStep>,
}

/// The mathematical content of one trace step.
pub open spec fn trace_step_view(s: TraceStep) -> TraceStepView
    decreases s,
{
    TraceStepView {
        spawned: match s.spawned {
            Option::Some(u) => Option::Some(u as int),
            Option::None => Option::None,
        },
        child: match s.child {
            Option::Some(b) => Option::Some(spawn_trace_view(*b)),
            Option::None => Option::None,
        },
    }
}

/// The views of a trace step sequence, in order.
pub open spec fn trace_steps_view(s: Seq<TraceStep>) -> Seq<TraceStepView>
    decreases s,
{
    if s.len() == 0 {
        Seq::empty()
    } else {
        trace_steps_view(s.drop_last()).push(trace_step_view(s.last()))
    }
}

/// The mathematical content of one trace.
pub open spec fn spawn_trace_view(t: SpawnTrace) -> SpawnTraceView
    decreases t,
{
    SpawnTraceView { steps: trace_steps_view(t.steps@) }
}

/// A trace step sequence and its views have the same length.
pub proof fn lemma_trace_steps_view_len(s: Seq<TraceStep>)
    ensures
        trace_steps_view(s).len() == s.len(),
    decreases s,
{
    if s.len() > 0 {
        lemma_trace_steps_view_len(s.drop_last());
    }
}

/// The views of a trace step sequence are the views of its steps,
/// pointwise.
pub proof fn lemma_trace_steps_view_index(s: Seq<TraceStep>, i: int)
    requires
        0 <= i < s.len(),
    ensures
        trace_steps_view(s)[i] == trace_step_view(s[i]),
    decreases s,
{
    lemma_trace_steps_view_len(s);
    lemma_trace_steps_view_len(s.drop_last());
    if i < s.len() - 1 {
        lemma_trace_steps_view_index(s.drop_last(), i);
    }
}

/// The empty trace, for steps and nodes that recorded nothing.
pub open spec fn empty_trace() -> SpawnTraceView {
    SpawnTraceView { steps: Seq::empty() }
}

/// The outcome of computing a node's application record: the record and
/// the number of objects that exist once the node is applied.
pub ghost struct TraceOut {
    /// The node's application record.
    pub trace: SpawnTraceView,
    /// The object count after the node is applied.
    pub next: int,
}

/// The outcome of computing a step sequence's application record.
pub ghost struct TraceStepsOut {
    /// The steps' record entries, in declaration order.
    pub steps: Seq<TraceStepView>,
    /// The object count after the steps are applied.
    pub next: int,
}

/// The record a successful application of `node` leaves, given that
/// `base` objects exist when it starts. Spawned objects are created in
/// walk order, so the record is a function of the tree and the count.
pub open spec fn apply_node_trace(node: TreeNodeView, base: int) -> TraceOut
    decreases node,
{
    let s = apply_steps_trace(node.steps, base);
    TraceOut { trace: SpawnTraceView { steps: s.steps }, next: s.next }
}

/// The record a successful application of `steps` leaves, given that
/// `base` objects exist when they start.
pub open spec fn apply_steps_trace(steps: Seq<TreeStepView>, base: int) -> TraceStepsOut
    decreases steps,
{
    if steps.len() == 0 {
        TraceStepsOut { steps: Seq::empty(), next: base }
    } else {
        let s = steps[0];
        let head = match s.child {
            Option::None => TraceStepsOut {
                steps: seq![TraceStepView { spawned: Option::None, child: Option::None }],
                next: base,
            },
            Option::Some(c) => {
                if s.spawn_child {
                    let ct = apply_node_trace(c, base + 1);
                    TraceStepsOut {
                        steps: seq![
                            TraceStepView {
                                spawned: Option::Some(base),
                                child: Option::Some(ct.trace),
                            },
                        ],
                        next: ct.next,
                    }
                } else {
                    let ct = apply_node_trace(c, base);
                    TraceStepsOut {
                        steps: seq![
                            TraceStepView { spawned: Option::None, child: Option::Some(ct.trace) },
                        ],
                        next: ct.next,
                    }
                }
            },
        };
        let rest = apply_steps_trace(steps.drop_first(), head.next);
        TraceStepsOut { steps: head.steps + rest.steps, next: rest.next }
    }
}

/// Application of one resolved node to object `o`.
pub open spec fn apply_node_model(
    node: TreeNodeView,
    o: int,
    world: Seq<Seq<CapabilityView>>,
    events: Seq<HookEventView>,
    table: Seq<u64>,
) -> EngineOutcome
    decreases node,
{
    let ev = events.push(HookEventView::BeforeApplyPrototype { id: node.id, object: o });
    let m = apply_steps_model(node.steps, o, world, ev, table);
    match m.error {
        Option::Some(_) => m,
        Option::None => EngineOutcome {
            world: m.world,
            events: m.events.push(HookEventView::AfterApplyPrototype { id: node.id, object: o }),
            error: Option::None,
        },
    }
}

/// Application of the remaining steps of a node, in declaration order.
pub open spec fn apply_steps_model(
    steps: Seq<TreeStepView>,
    o: int,
    world: Seq<Seq<CapabilityView>>,
    events: Seq<HookEventView>,
    table: Seq<u64>,
) -> EngineOutcome
    decreases steps,
{
    if steps.len() == 0 {
        EngineOutcome { world, events, error: Option::None }
    } else {
        let s = steps[0];
        let ev1 = events.push(HookEventView::BeforeApplySchematic { kind: s.kind, object: o });
        if !table.contains(s.kind) {
            EngineOutcome {
                world,
                events: ev1,
                error: Option::Some(ProtoErrorView::SchematicApplyFailed { kind: s.kind, object: o }),
            }
        } else {
            let w1 = world_insert(world, o, s.kind, s.payload);
            match s.child {
                Option::None => apply_steps_model(
                    steps.drop_first(),
                    o,
                    w1,
                    ev1.push(HookEventView::AfterApplySchematic { kind: s.kind, object: o }),
                    table,
                ),
                Option::Some(c) => {
                    let co = if s.spawn_child {
                        w1.len() as int
                    } else {
                        o
                    };
                    let w2 = if s.spawn_child {
                        w1.push(Seq::empty())
                    } else {
                        w1
                    };
                    let m = apply_node_model(c, co, w2, ev1, table);
                    match m.error {
                        Option::Some(_) => m,
                        Option::None => apply_steps_model(
                            steps.drop_first(),
                            o,
                            m.world,
                            m.events.push(
                                HookEventView::AfterApplySchematic { kind: s.kind, object: o },
                            ),
                            table,
                        ),
                    }
                },
            }
        }
    }
}

/// Removal of one resolved node from object `o`: the mirror of
/// [`apply_node_model`].
pub open spec fn remove_node_model(
    node: TreeNodeView,
    o: int,
    world: Seq<Seq<CapabilityView>>,
    events: Seq<HookEventView>,
    table: Seq<u64>,
    trace: SpawnTraceView,
) -> EngineOutcome
    decreases node,
{
    let ev = events.push(HookEventView::BeforeRemovePrototype { id: node.id, object: o });
    let m = remove_steps_model(node.steps, o, world, ev, table, trace.steps);
    match m.error {
        Option::Some(_) => m,
        Option::None => EngineOutcome {
            world: m.world,
            events: m.events.push(HookEventView::AfterRemovePrototype { id: node.id, object: o }),
            error: Option::None,
        },
    }
}

/// Removal of the remaining steps of a node, in reverse declaration
/// order, each against the object its application record names. A child
/// whose record entry is missing or names an object that does not exist
/// is left alone, so removal stays meaningful when a template was edited
/// between application and teardown.
pub open spec fn remove_steps_model(
    steps: Seq<TreeStepView>,
    o: int,
    world: Seq<Seq<CapabilityView>>,
    events: Seq<HookEventView>,
    table: Seq<u64>,
    trace: Seq<TraceStepView>,
) -> EngineOutcome
    decreases steps,
{
    if steps.len() == 0 {
        EngineOutcome { world, events, error: Option::None }
    } else {
        let s = steps.last();
        let i = steps.len() - 1;
        let tr = if i < trace.len() {
            trace[i]
        } else {
            TraceStepView { spawned: Option::None, child: Option::None }
        };
        let ev1 = events.push(HookEventView::BeforeRemoveSchematic { kind: s.kind, object: o });
        let after_child = match s.child {
            Option::Some(c) => if s.spawn_child {
                match tr.spawned {
                    Option::Some(co) => if 0 <= co < world.len() {
                        let ct = match tr.child {
                            Option::Some(ct) => ct,
                            Option::None => empty_trace(),
                        };
                        remove_node_model(c, co, world, ev1, table, ct)
                    } else {
                        EngineOutcome { world, events: ev1, error: Option::None }
                    },
                    Option::None => EngineOutcome { world, events: ev1, error: Option::None },
                }
            } else {
                let ct = match tr.child {
                    Option::Some(ct) => ct,
                    Option::None => empty_trace(),
                };
                remove_node_model(c, o, world, ev1, table, ct)
            },
            Option::None => EngineOutcome { world, events: ev1, error: Option::None },
        };
        match after_child.error {
            Option::Some(_) => after_child,
            Option::None => {
                if !table.contains(s.kind) {
                    EngineOutcome {
                        world: after_child.world,
                        events: after_child.events,
                        error: Option::Some(
                            ProtoErrorView::SchematicRemoveFailed { kind: s.kind, object: o },
                        ),
                    }
                } else {
                    remove_steps_model(
                        steps.drop_last(),
                        o,
                        world_remove(after_child.world, o, s.kind),
                        after_child.events.push(
                            HookEventView::AfterRemoveSchematic { kind: s.kind, object: o },
                        ),
                        table,
                        trace,
                    )
                }
            },
        }
    }
}

/// `post` begins with `pre`: a walk only appends to the event log.
pub open spec fn log_extends(pre: Seq<HookEventView>, post: Seq<HookEventView>) -> bool {
    post.len() >= pre.len() && forall|k: int| 0 <= k < pre.len() ==> post[k] == pre[k]
}

/// Applying a node only appends to the event log.
pub proof fn lemma_apply_node_log(
    node: TreeNodeView,
    o: int,
    world: Seq<Seq<CapabilityView>>,
    events: Seq<HookEventView>,
    table: Seq<u64>,
)
    ensures
        log_extends(events, apply_node_model(node, o, world, events, table).events),
    decreases node,
{
    let ev = events.push(HookEventView::BeforeApplyPrototype { id: node.id, object: o });
    lemma_apply_steps_log(node.steps, o, world, ev, table);
}

/// Applying a step sequence only appends to the event log.
pub proof fn lemma_apply_steps_log(
    steps: Seq<TreeStepView>,
    o: int,
    world: Seq<Seq<CapabilityView>>,
    events: Seq<HookEventView>,
    table: Seq<u64>,
)
    ensures
        log_extends(events, apply_steps_model(steps, o, world, events, table).events),
    decreases steps,
{
    if steps.len() > 0 {
        let s = steps[0];
        let ev1 = events.push(HookEventView::BeforeApplySchematic { kind: s.kind, object: o });
        if table.contains(s.kind) {
            let w1 = world_insert(world, o, s.kind, s.payload);
            match s.child {
                Option::None => {
                    lemma_apply_steps_log(
                        steps.drop_first(),
                        o,
                        w1,
                        ev1.push(HookEventView::AfterApplySchematic { kind: s.kind, object: o }),
                        table,
                    );
                },
                Option::Some(c) => {
                    let co = if s.spawn_child {
                        w1.len() as int
                    } else {
                        o
                    };
                    let w2 = if s.spawn_child {
                        w1.push(Seq::empty())
                    } else {
                        w1
                    };
                    lemma_apply_node_log(c, co, w2, ev1, table);
                    let m = apply_node_model(c, co, w2, ev1, table);
                    if m.error is None {
                        lemma_apply_steps_log(
                            steps.drop_first(),
                            o,
                            m.world,
                            m.events.push(
                                HookEventView::AfterApplySchematic { kind: s.kind, object: o },
                            ),
                            table,
                        );
                    }
                },
            }
        }
    }
}

/// Removing a node only appends to the event log.
pub proof fn lemma_remove_node_log(
    node: TreeNodeView,
    o: int,
    world: Seq<Seq<CapabilityView>>,
    events: Seq<HookEventView>,
    table: Seq<u64>,
    trace: SpawnTraceView,
)
    ensures
        log_extends(events, remove_node_model(node, o, world, events, table, trace).events),
    decreases node,
{
    let ev = events.push(HookEventView::BeforeRemovePrototype { id: node.id, object: o });
    lemma_remove_steps_log(node.steps, o, world, ev, table, trace.steps);
}

/// Removing a step sequence only appends to the event log.
pub proof fn lemma_remove_steps_log(
    steps: Seq<TreeStepView>,
    o: int,
    world: Seq<Seq<CapabilityView>>,
    events: Seq<HookEventView>,
    table: Seq<u64>,
    trace: Seq<TraceStepView>,
)
    ensures
        log_extends(events, remove_steps_model(steps, o, world, events, table, trace).events),
    decreases steps,
{
    if steps.len() > 0 {
        let s = steps.last();
        let i = steps.len() - 1;
        let tr = if i < trace.len() {
            trace[i]
        } else {
            TraceStepView { spawned: Option::None, child: Option::None }
        };
        let ev1 = events.push(HookEventView::BeforeRemoveSchematic { kind: s.kind, object: o });
        match s.child {
            Option::Some(c) => {
                if s.spawn_child {
                    match tr.spawned {
                        Option::Some(co) => {
                            if 0 <= co < world.len() {
                                let ct = match tr.child {
                                    Option::Some(ct) => ct,
                                    Option::None => empty_trace(),
                                };
                                lemma_remove_node_log(c, co, world, ev1, table, ct);
                            }
                        },
                        Option::None => {},
                    }
                } else {
                    let ct = match tr.child {
                        Option::Some(ct) => ct,
                        Option::None => empty_trace(),
                    };
                    lemma_remove_node_log(c, o, world, ev1, table, ct);
                }
            },
            Option::None => {},
        }
        let after_child = remove_after_child(steps, o, world, ev1, table, tr);
        if after_child.error is None && table.contains(s.kind) {
            lemma_remove_steps_log(
                steps.drop_last(),
                o,
                world_remove(after_child.world, o, s.kind),
                after_child.events.push(
                    HookEventView::AfterRemoveSchematic { kind: s.kind, object: o },
                ),
                table,
                trace,
            );
        }
    }
}

/// The outcome of the child phase of the last step, as
/// [`remove_steps_model`] computes it.
pub open spec fn remove_after_child(
    steps: Seq<TreeStepView>,
    o: int,
    world: Seq<Seq<CapabilityView>>,
    ev1: Seq<HookEventView>,
    table: Seq<u64>,
    tr: TraceStepView,
) -> EngineOutcome {
    let s = steps.last();
    match s.child {
        Option::Some(c) => if s.spawn_child {
            match tr.spawned {
                Option::Some(co) => if 0 <= co < world.len() {
                    let ct = match tr.child {
                        Option::Some(ct) => ct,
                        Option::None => empty_trace(),
                    };
                    remove_node_model(c, co, world, ev1, table, ct)
                } else {
                    EngineOutcome { world, events: ev1, error: Option::None }
                },
                Option::None => EngineOutcome { world, events: ev1, error: Option::None },
            }
        } else {
            let ct = match tr.child {
                Option::Some(ct) => ct,
                Option::None => empty_trace(),
            };
            remove_node_model(c, o, world, ev1, table, ct)
        },
        Option::None => EngineOutcome { world, events: ev1, error: Option::None },
    }
}

/// Whether the dispatch table knows the type identifier `kind`.
fn table_contains(table: &Vec<u64>, kind: u64) -> (r: bool)
    ensures
        r == table@.contains(kind),
{
    let n = table.len();
    let mut i: usize = 0;
    while i < n
        invariant
            n == table@.len(),
            i <= n,
            forall|k: int| 0 <= k < i ==> table@[k] != kind,
        decreases n - i,
    {
        if table[i] == kind {
            return true;
        }
        i = i + 1;
    }
    proof {
        if table@.contains(kind) {
            let k = choose|k: int| 0 <= k < table@.len() && table@[k] == kind;
            assert(table@[k] != kind);
        }
    }
    false
}

/// Apply a resolved tree to object `o`, inserting capabilities through the
/// dispatch table and recording every hook boundary in `events`.
///
/// The world, the event log and the result are exactly what
/// [`apply_node_model`] gives; on failure the walk halts where the model
/// halts and earlier effects stay in place. On success the returned record
/// is exactly [`apply_node_trace`] of the tree, naming the object every
/// child subtree was applied to, so a later removal can reach them.
#[verifier::loop_isolation(false)]
pub fn apply_tree(
    node: &TreeNode,
    o: usize,
    world: &mut ProtoWorld,
    table: &Vec<u64>,
    events: &mut Vec<HookEvent>,
) -> (r: Result<SpawnTrace, ProtoError>)
    requires
        o < old(world)@.len(),
        old(world).wf(),
    ensures
        final(world).wf(),
        final(world)@.len() >= old(world)@.len(),
        apply_node_model(node_view(*node), o as int, old(world)@, events_view(old(events)@), table@)
            == (EngineOutcome {
            world: final(world)@,
            events: events_view(final(events)@),
            error: match r {
                Result::Ok(_) => Option::<ProtoErrorView>::None,
                Result::Err(e) => Option::Some(e@),
            },
        }),
        match r {
            Result::Ok(tr) => spawn_trace_view(tr) == apply_node_trace(
                node_view(*node),
                old(world)@.len() as int,
            ).trace && final(world)@.len() == apply_node_trace(
                node_view(*node),
                old(world)@.len() as int,
            ).next,
            Result::Err(_) => true,
        },
    decreases *node,
{
    let ghost w0 = world@;
    let ghost e0 = events_view(events@);
    events.push(HookEvent::BeforeApplyPrototype { id: node.id.clone(), object: o });
    proof {
        assert(events_view(events@) =~= e0.push(
            HookEventView::BeforeApplyPrototype { id: node.id@, object: o as int },
        ));
    }
    let ghost svs = node_view(*node).steps;
    let ghost w1 = world@;
    let ghost e1 = events_view(events@);
    let ghost base1 = w1.len() as int;
    let n = node.steps.len();
    proof {
        assert(svs.len() == n) by {
            crate::tree::lemma_steps_view_len(node.steps@);
        }
    }
    let mut tsteps: Vec<TraceStep> = Vec::new();
    let mut j: usize = 0;
    proof {
        assert(svs.skip(0) =~= svs);
        assert(trace_steps_view(tsteps@) =~= Seq::<TraceStepView>::empty());
        assert(trace_steps_view(tsteps@) + apply_steps_trace(svs, base1).steps =~= apply_steps_trace(
            svs,
            base1,
        ).steps);
    }
    while j < n
        invariant
            j <= n,
            world.wf(),
            o < world@.len(),
            world@.len() >= w0.len(),
            apply_steps_model(svs.skip(j as int), o as int, world@, events_view(events@), table@)
                == apply_steps_model(svs, o as int, w1, e1, table@),
            trace_steps_view(tsteps@).len() == j,
            apply_steps_trace(svs, base1) == (TraceStepsOut {
                steps: trace_steps_view(tsteps@) + apply_steps_trace(
                    svs.skip(j as int),
                    world@.len() as int,
                ).steps,
                next: apply_steps_trace(svs.skip(j as int), world@.len() as int).next,
            }),
        decreases n - j,
    {
        proof {
            assert(svs.skip(j as int).len() > 0);
            assert(svs.skip(j as int)[0] == svs[j as int]);
            assert(svs.skip(j as int).drop_first() =~= svs.skip(j + 1 as int));
            crate::tree::lemma_steps_view_index(node.steps@, j as int);
        }
        let ghost len_before = world@.len() as int;
        let s = &node.steps[j];
        let ghost sv = svs[j as int];
        events.push(HookEvent::BeforeApplySchematic { kind: s.kind, object: o });
        proof {
            assert(events_view(events@) =~= events_view(events@).subrange(
                0,
                events_view(events@).len() - 1,
            ).push(HookEventView::BeforeApplySchematic { kind: sv.kind, object: o as int }));
        }
        if !table_contains(table, s.kind) {
            return Result::Err(ProtoError::SchematicApplyFailed { kind: s.kind, object: o });
        }
        world.insert_capability(o, s.kind, crate::template::clone_payload(&s.payload));
        let entry: TraceStep = match &s.child {
            Option::None => {
                events.push(HookEvent::AfterApplySchematic { kind: s.kind, object: o });
                TraceStep { spawned: Option::None, child: Option::None }
            },
            Option::Some(child) => {
                if s.spawn_child {
                    let co = world.spawn();
                    match apply_tree(&*child, co, world, table, events) {
                        Result::Ok(ct) => {
                            events.push(
                                HookEvent::AfterApplySchematic { kind: s.kind, object: o },
                            );
                            TraceStep {
                                spawned: Option::Some(co),
                                child: Option::Some(Box::new(ct)),
                            }
                        },
                        Result::Err(e) => {
                            return Result::Err(e);
                        },
                    }
                } else {
                    match apply_tree(&*child, o, world, table, events) {
                        Result::Ok(ct) => {
                            events.push(
                                HookEvent::AfterApplySchematic { kind: s.kind, object: o },
                            );
                            TraceStep { spawned: Option::None, child: Option::Some(Box::new(ct)) }
                        },
                        Result::Err(e) => {
                            return Result::Err(e);
                        },
                    }
                }
            },
        };
        let ghost prev_tsteps = tsteps@;
        tsteps.push(entry);
        proof {
            assert(tsteps@.drop_last() =~= prev_tsteps);
            assert(tsteps@.last() == entry);
            assert(trace_steps_view(tsteps@) == trace_steps_view(prev_tsteps).push(
                trace_step_view(entry),
            ));
            let rest = apply_steps_trace(svs.skip(j + 1 as int), world@.len() as int);
            assert(trace_steps_view(prev_tsteps).push(trace_step_view(entry)) + rest.steps
                =~= trace_steps_view(prev_tsteps) + (seq![trace_step_view(entry)] + rest.steps));
        }
        j = j + 1;
    }
    proof {
        assert(svs.skip(n as int) =~= Seq::<TreeStepView>::empty());
        assert(trace_steps_view(tsteps@) + Seq::<TraceStepView>::empty() =~= trace_steps_view(
            tsteps@,
        ));
    }
    events.push(HookEvent::AfterApplyPrototype { id: node.id.clone(), object: o });
    Result::Ok(SpawnTrace { steps: tsteps })
}

/// Remove a resolved tree from object `o`: steps in reverse declaration
/// order, each child subtree torn down — against the object the
/// application record names — before its own capability is removed, with
/// every hook boundary recorded in `events`.
///
/// The world, the event log and the result are exactly what
/// [`remove_node_model`] gives; on failure the walk halts where the model
/// halts and earlier removals stay in place. A record entry that is
/// missing or names an object that does not exist leaves that child alone.
#[verifier::loop_isolation(false)]
pub fn remove_tree(
    node: &TreeNode,
    o: usize,
    world: &mut ProtoWorld,
    table: &Vec<u64>,
    events: &mut Vec<HookEvent>,
    trace: &SpawnTrace,
) -> (r: Result<(), ProtoError>)
    requires
        o < old(world)@.len(),
        old(world).wf(),
    ensures
        final(world).wf(),
        final(world)@.len() == old(world)@.len(),
        remove_node_model(
            node_view(*node),
            o as int,
            old(world)@,
            events_view(old(events)@),
            table@,
            spawn_trace_view(*trace),
        ) == (EngineOutcome {
            world: final(world)@,
            events: events_view(final(events)@),
            error: match r {
                Result::Ok(()) => Option::<ProtoErrorView>::None,
                Result::Err(e) => Option::Some(e@),
            },
        }),
    decreases *node,
{
    let ghost w0 = world@;
    let ghost e0 = events_view(events@);
    events.push(HookEvent::BeforeRemovePrototype { id: node.id.clone(), object: o });
    proof {
        assert(events_view(events@) =~= e0.push(
            HookEventView::BeforeRemovePrototype { id: node.id@, object: o as int },
        ));
    }
    let ghost svs = node_view(*node).steps;
    let ghost trs = spawn_trace_view(*trace).steps;
    let ghost w1 = world@;
    let ghost e1 = events_view(events@);
    let n = node.steps.len();
    let tn = trace.steps.len();
    proof {
        assert(svs.len() == n) by {
            crate::tree::lemma_steps_view_len(node.steps@);
        }
        assert(trs.len() == tn) by {
            lemma_trace_steps_view_len(trace.steps@);
        }
    }
    let empty_record = SpawnTrace { steps: Vec::new() };
    proof {
        assert(spawn_trace_view(empty_record) =~~= empty_trace());
    }
    let mut j: usize = n;
    while j > 0
        invariant
            j <= n,
            world.wf(),
            o < world@.len(),
            world@.len() == w0.len(),
            remove_steps_model(
                svs.take(j as int),
                o as int,
                world@,
                events_view(events@),
                table@,
                trs,
            ) == remove_steps_model(svs, o as int, w1, e1, table@, trs),
        decreases j,
    {
        proof {
            assert(svs.take(j as int).len() == j);
            assert(svs.take(j as int).last() == svs[j - 1]);
            assert(svs.take(j as int).drop_last() =~= svs.take(j - 1));
            crate::tree::lemma_steps_view_index(node.steps@, j - 1);
            if j - 1 < tn {
                lemma_trace_steps_view_index(trace.steps@, j - 1);
            }
        }
        let s = &node.steps[j - 1];
        let ghost sv = svs[j - 1];
        let ghost tr = if j - 1 < trs.len() {
            trs[j - 1]
        } else {
            TraceStepView { spawned: Option::None, child: Option::None }
        };
        events.push(HookEvent::BeforeRemoveSchematic { kind: s.kind, object: o });
        match &s.child {
            Option::None => {},
            Option::Some(child) => {
                if s.spawn_child {
                    if j - 1 < tn {
                        let entry = &trace.steps[j - 1];
                        match entry.spawned {
                            Option::Some(co) => {
                                if co < world.len() {
                                    let rr = match &entry.child {
                                        Option::Some(ct) => remove_tree(
                                            &*child,
                                            co,
                                            world,
                                            table,
                                            events,
                                            &*ct,
                                        ),
                                        Option::None => remove_tree(
                                            &*child,
                                            co,
                                            world,
                                            table,
                                            events,
                                            &empty_record,
                                        ),
                                    };
                                    match rr {
                                        Result::Ok(()) => {},
                                        Result::Err(e) => {
                                            return Result::Err(e);
                                        },
                                    }
                                }
                            },
                            Option::None => {},
                        }
                    }
                } else {
                    let rr = if j - 1 < tn {
                        let entry = &trace.steps[j - 1];
                        match &entry.child {
                            Option::Some(ct) => remove_tree(&*child, o, world, table, events, &*ct),
                            Option::None => remove_tree(
                                &*child,
                                o,
                                world,
                                table,
                                events,
                                &empty_record,
                            ),
                        }
                    } else {
                        remove_tree(&*child, o, world, table, events, &empty_record)
                    };
                    match rr {
                        Result::Ok(()) => {},
                        Result::Err(e) => {
                            return Result::Err(e);
                        },
                    }
                }
            },
        }
        if !table_contains(table, s.kind) {
            return Result::Err(ProtoError::SchematicRemoveFailed { kind: s.kind, object: o });
        }
        world.remove_capability(o, s.kind);
        events.push(HookEvent::AfterRemoveSchematic { kind: s.kind, object: o });
        j = j - 1;
    }
    proof {
        assert(svs.take(0) =~= Seq::<TreeStepView>::empty());
    }
    events.push(HookEvent::AfterRemovePrototype { id: node.id.clone(), object: o });
    Result::Ok(())
}

} // verus!
