//! The manager: the host's entry point for registration, reload,
//! unregistration and application of templates.
//!
//! The manager owns the template store, the object world, the dispatch
//! table of known schematic kinds, the configuration, and the log of hook
//! events fired so far; the host drains that log and dispatches each event
//! to the callback registered for its slot.

use vstd::prelude::*;

use crate::config::{spec_cycle_response, ProtoConfig};
use crate::engine::{
    apply_node_model, apply_node_trace, apply_tree, empty_trace, remove_node_model, remove_tree,
    spawn_trace_view, SpawnTrace, SpawnTraceView,
};
use crate::error::{ProtoError, ProtoErrorView};
use crate::hooks::{events_view, HookEvent, HookEventView};
use crate::store::{contains_id, TemplateStore};
use crate::template::{schematics_view, Schematic, Template, TemplateView};
use crate::tree::{build_tree, id_index, node_view, resolve_node, ResolveOutcome};
use crate::world::{CapabilityView, ProtoWorld};

verus! {

broadcast use crate::hooks::lemma_events_view_push;

/// The mathematical content of a [`Binding`].
pub ghost struct BindingView {
    /// The bound object.
    pub object: int,
    /// Identifier of the applied template.
    pub id: Seq<char>,
    /// The application record: which object each child subtree went to.
    pub trace: SpawnTraceView,
}

/// A record that a template is currently applied to an object, in the
/// order the applications happened, together with the application record
/// a later removal tears the spawned children down with.
pub struct Binding {
    /// The bound object.
    pub object: usize,
    /// Identifier of the applied template.
    pub id: String,
    /// The application record: which object each child subtree went to.
    pub trace: SpawnTrace,
}

impl View for Binding {
    type V = BindingView;

    open spec fn view(&self) -> BindingView {
        BindingView { object: self.object as int, id: self.id@, trace: spawn_trace_view(self.trace) }
    }
}

/// The application record of the oldest binding of `id` to `object`, or
/// the empty record when none is recorded.
pub open spec fn binding_trace(bs: Seq<BindingView>, object: int, id: Seq<char>) -> SpawnTraceView
    decreases bs.len(),
{
    if bs.len() == 0 {
        empty_trace()
    } else if bs[0].object == object && bs[0].id == id {
        bs[0].trace
    } else {
        binding_trace(bs.drop_first(), object, id)
    }
}

/// The first match fixes [`binding_trace`], and no match leaves it empty.
proof fn lemma_binding_trace_at(bs: Seq<BindingView>, object: int, id: Seq<char>, i: int)
    requires
        0 <= i <= bs.len(),
        forall|j: int| 0 <= j < i ==> !(#[trigger] bs[j].object == object && bs[j].id == id),
        i < bs.len() ==> bs[i].object == object && bs[i].id == id,
    ensures
        i < bs.len() ==> binding_trace(bs, object, id) == bs[i].trace,
        i == bs.len() ==> binding_trace(bs, object, id) == empty_trace(),
    decreases bs.len(),
{
    if bs.len() > 0 {
        if !(bs[0].object == object && bs[0].id == id) {
            let d = bs.drop_first();
            assert forall|j: int|
                0 <= j < i - 1 implies !(#[trigger] d[j].object == object && d[j].id == id) by {
                assert(d[j] == bs[j + 1]);
            }
            assert(i >= 1);
            assert(i - 1 < d.len() ==> d[i - 1] == bs[i]);
            lemma_binding_trace_at(d, object, id, i - 1);
        }
    }
}

/// The outcome of re-applying a reloaded template across the bindings.
pub ghost struct ReapplyOutcome {
    /// The objects and their capabilities after the work queue ran.
    pub world: Seq<Seq<CapabilityView>>,
    /// The full event log after the work queue ran.
    pub events: Seq<HookEventView>,
    /// The bindings afterwards: records of re-applied bindings renewed.
    pub bindings: Seq<BindingView>,
    /// The error that halted the queue, or nothing.
    pub error: Option<ProtoErrorView>,
}

/// The work queue a reload runs: for each binding of `id`, in order, the
/// removal of the old tree from its object followed by the application of
/// the new tree, halting at the first failure; bindings of other templates
/// pass through untouched, and a successfully re-applied binding carries
/// the new tree's application record afterwards.
pub open spec fn reapply_model(
    bs: Seq<BindingView>,
    id: Seq<char>,
    old_node: crate::tree::TreeNodeView,
    new_node: crate::tree::TreeNodeView,
    world: Seq<Seq<CapabilityView>>,
    events: Seq<HookEventView>,
    table: Seq<u64>,
) -> ReapplyOutcome
    decreases bs.len(),
{
    if bs.len() == 0 {
        ReapplyOutcome { world, events, bindings: Seq::empty(), error: Option::None }
    } else {
        let b = bs[0];
        if b.id != id {
            let rest = reapply_model(bs.drop_first(), id, old_node, new_node, world, events, table);
            ReapplyOutcome {
                world: rest.world,
                events: rest.events,
                bindings: seq![b] + rest.bindings,
                error: rest.error,
            }
        } else {
            let mr = remove_node_model(old_node, b.object, world, events, table, b.trace);
            match mr.error {
                Option::Some(e) => ReapplyOutcome {
                    world: mr.world,
                    events: mr.events,
                    bindings: bs,
                    error: Option::Some(e),
                },
                Option::None => {
                    let ma = apply_node_model(new_node, b.object, mr.world, mr.events, table);
                    match ma.error {
                        Option::Some(e) => ReapplyOutcome {
                            world: ma.world,
                            events: ma.events,
                            bindings: bs,
                            error: Option::Some(e),
                        },
                        Option::None => {
                            let b2 = BindingView {
                                object: b.object,
                                id: b.id,
                                trace: apply_node_trace(new_node, mr.world.len() as int).trace,
                            };
                            let rest = reapply_model(
                                bs.drop_first(),
                                id,
                                old_node,
                                new_node,
                                ma.world,
                                ma.events,
                                table,
                            );
                            ReapplyOutcome {
                                world: rest.world,
                                events: rest.events,
                                bindings: seq![b2] + rest.bindings,
                                error: rest.error,
                            }
                        },
                    }
                },
            }
        }
    }
}

/// The mathematical content of a [`Manager`].
pub ghost struct ManagerView {
    /// The loaded templates.
    pub store: Seq<TemplateView>,
    /// The objects and their capabilities.
    pub world: Seq<Seq<CapabilityView>>,
    /// The hook events fired so far, oldest first.
    pub events: Seq<HookEventView>,
    /// Which templates are applied to which objects, oldest first.
    pub bindings: Seq<BindingView>,
    /// The dispatch table: the schematic kinds that can be applied.
    pub table: Seq<u64>,
    /// The next handle to assign.
    pub next_handle: u64,
    /// The configuration the manager was built with.
    pub config: crate::config::ConfigView,
}

/// Whether a binding of `id` to `object` is recorded in `bs`.
pub open spec fn has_binding(bs: Seq<BindingView>, object: int, id: Seq<char>) -> bool {
    exists|i: int| 0 <= i < bs.len() && bs[i].object == object && bs[i].id == id
}

/// `post` is `pre` with its oldest binding of `id` to `object` dropped,
/// or `pre` itself when none is recorded.
pub open spec fn bindings_dropped(
    pre: Seq<BindingView>,
    post: Seq<BindingView>,
    object: int,
    id: Seq<char>,
) -> bool {
    if has_binding(pre, object, id) {
        exists|i: int|
            0 <= i < pre.len() && pre[i].object == object && pre[i].id == id && (forall|j: int|
                0 <= j < i ==> !(pre[j].object == object && pre[j].id == id)) && post == pre.remove(
                i,
            )
    } else {
        post == pre
    }
}

/// The engine's entry point, as the host sees it.
pub struct Manager {
    store: TemplateStore,
    world: ProtoWorld,
    events: Vec<HookEvent>,
    bindings: Vec<Binding>,
    table: Vec<u64>,
    next_handle: u64,
    config: ProtoConfig,
}

impl View for Manager {
    type V = ManagerView;

    closed spec fn view(&self) -> ManagerView {
        ManagerView {
            store: self.store@,
            world: self.world@,
            events: events_view(self.events@),
            bindings: Seq::new(self.bindings@.len(), |i: int| self.bindings@[i]@),
            table: self.table@,
            next_handle: self.next_handle,
            config: self.config@,
        }
    }
}

impl Manager {
    /// The manager invariant: the store and world are well formed, every
    /// assigned handle is below the next one, and every binding names a
    /// live object.
    pub open spec fn wf(&self) -> bool {
        &&& crate::store::ids_unique(self@.store)
        &&& crate::world::world_wf(self@.world)
        &&& forall|i: int|
            0 <= i < self@.store.len() ==> #[trigger] self@.store[i].handle < self@.next_handle
        &&& forall|b: int|
            0 <= b < self@.bindings.len() ==> #[trigger] self@.bindings[b].object < self@.world.len()
    }

    /// A manager with the given configuration and nothing loaded.
    pub fn new(config: ProtoConfig) -> (r: Manager)
        ensures
            r.wf(),
            r@.store == Seq::<TemplateView>::empty(),
            r@.world == Seq::<Seq<CapabilityView>>::empty(),
            r@.events == Seq::<HookEventView>::empty(),
            r@.bindings == Seq::<BindingView>::empty(),
            r@.table == Seq::<u64>::empty(),
            r@.next_handle == 0,
            r@.config == config@,
    {
        let r = Manager {
            store: TemplateStore::new(),
            world: ProtoWorld::new(),
            events: Vec::new(),
            bindings: Vec::new(),
            table: Vec::new(),
            next_handle: 0,
            config,
        };
        proof {
            assert(r@.events =~= Seq::<HookEventView>::empty());
            assert(r@.bindings =~= Seq::<BindingView>::empty());
        }
        r
    }

    /// The configuration the manager was built with.
    pub fn config(&self) -> (r: &ProtoConfig)
        ensures
            r@ == self@.config,
    {
        &self.config
    }

    /// Make a schematic kind dispatchable. A kind never registered here
    /// fails every apply and removal that reaches it.
    #[verifier::loop_isolation(false)]
    pub fn register_schematic_kind(&mut self, kind: u64)
        requires
            old(self).wf(),
        ensures
            final(self).wf(),
            final(self)@ == (ManagerView {
                table: if old(self)@.table.contains(kind) {
                    old(self)@.table
                } else {
                    old(self)@.table.push(kind)
                },
                ..old(self)@
            }),
    {
        let n = self.table.len();
        let mut i: usize = 0;
        while i < n
            invariant
                n == self.table@.len(),
                i <= n,
                forall|k: int| 0 <= k < i ==> self.table@[k] != kind,
                *self == *old(self),
            decreases n - i,
        {
            if self.table[i] == kind {
                return ;
            }
            i = i + 1;
        }
        proof {
            if self.table@.contains(kind) {
                let k = choose|k: int| 0 <= k < self.table@.len() && self.table@[k] == kind;
                assert(self.table@[k] != kind);
            }
        }
        self.table.push(kind);
    }

    /// Whether a fresh handle can still be assigned: registration consumes
    /// one handle per template, and the handle space is finite.
    pub fn can_register(&self) -> (r: bool)
        ensures
            r == (self@.next_handle < u64::MAX),
    {
        self.next_handle < u64::MAX
    }

    /// All events fired so far, oldest first.
    pub fn events(&self) -> (r: &Vec<HookEvent>)
        ensures
            events_view(r@) == self@.events,
    {
        &self.events
    }

    /// Drain the event log, handing the events to the host for dispatch.
    pub fn take_events(&mut self) -> (r: Vec<HookEvent>)
        requires
            old(self).wf(),
        ensures
            final(self).wf(),
            events_view(r@) == old(self)@.events,
            final(self)@ == (ManagerView { events: Seq::<HookEventView>::empty(), ..old(self)@ }),
    {
        let mut drained: Vec<HookEvent> = Vec::new();
        core::mem::swap(&mut self.events, &mut drained);
        proof {
            assert(events_view(Seq::<HookEvent>::empty()) =~= Seq::<HookEventView>::empty());
        }
        drained
    }

    /// Read-only fetch by identifier; nothing if absent.
    pub fn lookup(&self, id: &String) -> (r: Option<&Template>)
        ensures
            match r {
                Option::Some(t) => contains_id(self@.store, id@) && t@.id == id@ && exists|i: int|
                    0 <= i < self@.store.len() && self@.store[i] == t@,
                Option::None => !contains_id(self@.store, id@),
            },
    {
        self.store.lookup(id)
    }

    /// Read-only fetch by handle; nothing if no loaded template carries it.
    pub fn lookup_by_handle(&self, handle: u64) -> (r: Option<&Template>)
        ensures
            match r {
                Option::Some(t) => t@.handle == handle && exists|i: int|
                    0 <= i < self@.store.len() && self@.store[i] == t@,
                Option::None => forall|i: int|
                    0 <= i < self@.store.len() ==> self@.store[i].handle != handle,
            },
    {
        let r = self.store.lookup_by_handle(handle);
        match &r {
            Option::Some(t) => {
                proof {
                    let i = choose|i: int|
                        0 <= i < self.store@.len() && self.store@[i] == t@;
                    assert(0 <= i < self@.store.len() && self@.store[i] == t@);
                }
            },
            Option::None => {},
        }
        r
    }

    /// Register a new template, assigning it a fresh handle and firing the
    /// register hook. Fails with [`ProtoError::DuplicateId`] when the
    /// identifier is already loaded, changing nothing.
    pub fn register(&mut self, id: String, schematics: Vec<Schematic>) -> (r: Result<
        u64,
        ProtoError,
    >)
        requires
            old(self).wf(),
            old(self)@.next_handle < u64::MAX,
        ensures
            final(self).wf(),
            match r {
                Result::Ok(handle) => !contains_id(old(self)@.store, id@)
                    && handle == old(self)@.next_handle && final(self)@ == (ManagerView {
                    store: old(self)@.store.push(
                        TemplateView { id: id@, handle, schematics: schematics_view(schematics@) },
                    ),
                    events: old(self)@.events.push(
                        HookEventView::RegisterPrototype { id: id@, handle },
                    ),
                    next_handle: (old(self)@.next_handle + 1) as u64,
                    ..old(self)@
                }),
                Result::Err(e) => contains_id(old(self)@.store, id@) && e@
                    == (ProtoErrorView::DuplicateId { id: id@ }) && final(self)@ == old(self)@,
            },
    {
        let handle = self.next_handle;
        let event_id = id.clone();
        match self.store.insert(id, handle, schematics) {
            Result::Ok(()) => {
                self.next_handle = self.next_handle + 1;
                self.events.push(HookEvent::RegisterPrototype { id: event_id, handle });
                Result::Ok(handle)
            },
            Result::Err(e) => Result::Err(e),
        }
    }

    /// Replace the schematics of the template named `id`, preserving its
    /// handle and its place in the store, firing the reload hook, and then
    /// re-applying the template — removal of the old tree followed by
    /// application of the new one — to every object currently bound to it,
    /// in the order those bindings were made.
    ///
    /// Fails with [`ProtoError::UnknownTemplate`] when `id` is not loaded,
    /// changing nothing. A failure while resolving either tree or during
    /// re-application aborts the request and is returned, but the store
    /// itself is never left half-written: the entry either still has its
    /// old schematics or fully carries the new ones.
    #[verifier::loop_isolation(false)]
    pub fn reload(&mut self, id: &String, schematics: Vec<Schematic>) -> (r: Result<
        (),
        ProtoError,
    >)
        requires
            old(self).wf(),
        ensures
            final(self).wf(),
            final(self)@.table == old(self)@.table,
            final(self)@.config == old(self)@.config,
            final(self)@.next_handle == old(self)@.next_handle,
            final(self)@.bindings.len() == old(self)@.bindings.len(),
            forall|b: int|
                0 <= b < old(self)@.bindings.len() ==> #[trigger] final(self)@.bindings[b].object
                    == old(self)@.bindings[b].object && final(self)@.bindings[b].id
                    == old(self)@.bindings[b].id,
            final(self)@.store.len() == old(self)@.store.len(),
            forall|i: int|
                0 <= i < old(self)@.store.len() ==> #[trigger] final(self)@.store[i].id
                    == old(self)@.store[i].id && final(self)@.store[i].handle
                    == old(self)@.store[i].handle,
            final(self)@.events.len() >= old(self)@.events.len(),
            forall|k: int|
                0 <= k < old(self)@.events.len() ==> #[trigger] final(self)@.events[k]
                    == old(self)@.events[k],
            final(self)@.world.len() >= old(self)@.world.len(),
            !contains_id(old(self)@.store, id@) ==> final(self)@ == old(self)@ && (match r {
                Result::Ok(()) => false,
                Result::Err(e) => e@ == (ProtoErrorView::UnknownTemplate { id: id@ }),
            }),
            contains_id(old(self)@.store, id@) ==> match resolve_node(
                old(self)@.store,
                id@,
                Seq::empty(),
                spec_cycle_response(old(self)@.config),
            ) {
                ResolveOutcome::Failed { error } => final(self)@ == old(self)@ && (match r {
                    Result::Ok(()) => false,
                    Result::Err(e) => e@ == error,
                }),
                ResolveOutcome::Done { node } => ({
                    let i = id_index(old(self)@.store, id@);
                    let handle = old(self)@.store[i].handle;
                    let mid_store = old(self)@.store.update(
                        i,
                        TemplateView {
                            id: old(self)@.store[i].id,
                            handle,
                            schematics: schematics_view(schematics@),
                        },
                    );
                    let mid_events = old(self)@.events.push(
                        HookEventView::ReloadPrototype { id: id@, handle },
                    );
                    final(self)@.store == mid_store && match resolve_node(
                        mid_store,
                        id@,
                        Seq::empty(),
                        spec_cycle_response(old(self)@.config),
                    ) {
                        ResolveOutcome::Failed { error } => final(self)@.world == old(self)@.world
                            && final(self)@.events == mid_events && final(self)@.bindings
                            == old(self)@.bindings && (match r {
                            Result::Ok(()) => false,
                            Result::Err(e) => e@ == error,
                        }),
                        ResolveOutcome::Done { node: new_node } => ({
                            let rm = reapply_model(
                                old(self)@.bindings,
                                id@,
                                node,
                                new_node,
                                old(self)@.world,
                                mid_events,
                                old(self)@.table,
                            );
                            final(self)@.world == rm.world && final(self)@.events == rm.events
                                && final(self)@.bindings == rm.bindings && (match r {
                                Result::Ok(()) => rm.error is None,
                                Result::Err(e) => rm.error == Option::Some(e@),
                            })
                        }),
                    }
                }),
            },
    {
        if !self.store.contains(id) {
            return Result::Err(ProtoError::UnknownTemplate { id: id.clone() });
        }
        let response = self.config.cycle_response();
        let old_tree = match build_tree(&self.store, id, response) {
            Result::Ok(tree) => tree,
            Result::Err(e) => {
                return Result::Err(e);
            },
        };
        let handle = match self.store.replace_schematics(id, schematics) {
            Result::Ok(handle) => handle,
            Result::Err(e) => {
                proof {
                    assert(false);
                }
                return Result::Err(e);
            },
        };
        proof {
            let i = choose|i: int|
                0 <= i < old(self)@.store.len() && old(self)@.store[i].id == id@ && old(
                    self,
                )@.store[i].handle == handle && self@.store == old(self)@.store.update(
                    i,
                    TemplateView {
                        id: old(self)@.store[i].id,
                        handle: old(self)@.store[i].handle,
                        schematics: schematics_view(schematics@),
                    },
                );
            let w = id_index(old(self)@.store, id@);
            assert(0 <= w < old(self)@.store.len() && old(self)@.store[w].id == id@);
            assert(w == i);
        }
        self.events.push(HookEvent::ReloadPrototype { id: id.clone(), handle });
        proof {
            assert forall|i: int|
                0 <= i < self@.store.len() implies #[trigger] self@.store[i].handle
                < self@.next_handle by {
                assert(old(self)@.store[i].handle < old(self)@.next_handle);
            }
            assert forall|b: int|
                0 <= b < self@.bindings.len() implies #[trigger] self@.bindings[b].object
                < self@.world.len() by {
                assert(self@.bindings[b] == old(self)@.bindings[b]);
            }
        }
        let ghost mid = self@;
        let new_tree = match build_tree(&self.store, id, response) {
            Result::Ok(tree) => tree,
            Result::Err(e) => {
                return Result::Err(e);
            },
        };
        let ghost obnds = mid.bindings;
        let ghost onode = node_view(old_tree);
        let ghost nnode = node_view(new_tree);
        let n = self.bindings.len();
        let mut j: usize = 0;
        proof {
            assert(obnds.skip(0) =~= obnds);
            assert(self@.bindings.take(0) =~= Seq::<BindingView>::empty());
            let rest = reapply_model(obnds, id@, onode, nnode, mid.world, mid.events, mid.table);
            assert(Seq::<BindingView>::empty() + rest.bindings =~= rest.bindings);
        }
        while j < n
            invariant
                j <= n,
                n == self.bindings@.len(),
                n == obnds.len(),
                self.wf(),
                self@.store == mid.store,
                self@.table == mid.table,
                self@.config == mid.config,
                self@.next_handle == mid.next_handle,
                self@.bindings.len() == n,
                forall|i: int|
                    0 <= i < n ==> #[trigger] self@.bindings[i].object == obnds[i].object
                        && self@.bindings[i].id == obnds[i].id,
                forall|i: int| j <= i < n ==> #[trigger] self@.bindings[i] == obnds[i],
                self@.world.len() >= mid.world.len(),
                self@.events.len() >= mid.events.len(),
                forall|k: int|
                    0 <= k < mid.events.len() ==> #[trigger] self@.events[k] == mid.events[k],
                ({
                    let rest = reapply_model(
                        obnds.skip(j as int),
                        id@,
                        onode,
                        nnode,
                        self@.world,
                        self@.events,
                        mid.table,
                    );
                    reapply_model(obnds, id@, onode, nnode, mid.world, mid.events, mid.table)
                        == (ReapplyOutcome {
                        world: rest.world,
                        events: rest.events,
                        bindings: self@.bindings.take(j as int) + rest.bindings,
                        error: rest.error,
                    })
                }),
            decreases n - j,
        {
            let ghost head_world = self@.world;
            let ghost head_events = self@.events;
            let ghost head_bnds = self@.bindings;
            proof {
                assert(obnds.skip(j as int).len() > 0);
                assert(obnds.skip(j as int)[0] == obnds[j as int]);
                assert(obnds.skip(j as int).drop_first() =~= obnds.skip(j + 1 as int));
            }
            let is_bound = self.bindings[j].id == *id;
            if is_bound {
                let o = self.bindings[j].object;
                proof {
                    assert(self@.bindings[j as int].object < self@.world.len());
                    assert(self@.bindings[j as int] == obnds[j as int]);
                }
                let ghost pre_world = self@.world;
                let ghost pre_events = self@.events;
                let record = &self.bindings[j].trace;
                let rr = remove_tree(
                    &old_tree,
                    o,
                    &mut self.world,
                    &self.table,
                    &mut self.events,
                    record,
                );
                proof {
                    crate::engine::lemma_remove_node_log(
                        onode,
                        o as int,
                        pre_world,
                        pre_events,
                        self@.table,
                        obnds[j as int].trace,
                    );
                    assert forall|b: int|
                        0 <= b < self@.bindings.len() implies #[trigger] self@.bindings[b].object
                        < self@.world.len() by {
                        assert(self@.bindings[b].object == obnds[b].object);
                    }
                }
                match rr {
                    Result::Ok(()) => {},
                    Result::Err(e) => {
                        proof {
                            assert(self@.bindings.take(j as int) + obnds.skip(j as int)
                                =~= self@.bindings);
                        }
                        return Result::Err(e);
                    },
                }
                let ghost pre_world2 = self@.world;
                let ghost pre_events2 = self@.events;
                let ra = apply_tree(
                    &new_tree,
                    o,
                    &mut self.world,
                    &self.table,
                    &mut self.events,
                );
                proof {
                    crate::engine::lemma_apply_node_log(
                        nnode,
                        o as int,
                        pre_world2,
                        pre_events2,
                        self@.table,
                    );
                    assert forall|b: int|
                        0 <= b < self@.bindings.len() implies #[trigger] self@.bindings[b].object
                        < self@.world.len() by {
                        assert(self@.bindings[b].object == obnds[b].object);
                    }
                }
                match ra {
                    Result::Ok(tr) => {
                        let ghost trv = spawn_trace_view(tr);
                        let ghost prev_bnds = self.bindings@;
                        let mut renewed = self.bindings.remove(j);
                        renewed.trace = tr;
                        self.bindings.insert(j, renewed);
                        proof {
                            let ghost b2 = BindingView {
                                object: obnds[j as int].object,
                                id: obnds[j as int].id,
                                trace: trv,
                            };
                            assert forall|i: int|
                                0 <= i < n && i != j implies #[trigger] self@.bindings[i]
                                == head_bnds[i] by {
                                assert(self.bindings@[i] == prev_bnds[i]);
                            }
                            assert(self@.bindings[j as int] == b2);
                            // The renewed record is the one the model writes.
                            let mr = remove_node_model(
                                onode,
                                obnds[j as int].object,
                                head_world,
                                head_events,
                                mid.table,
                                obnds[j as int].trace,
                            );
                            assert(mr.world == pre_world2);
                            assert(trv == apply_node_trace(nnode, mr.world.len() as int).trace);
                            // One-step unfolding of the work queue at this binding.
                            let rest = reapply_model(
                                obnds.skip(j + 1 as int),
                                id@,
                                onode,
                                nnode,
                                self@.world,
                                self@.events,
                                mid.table,
                            );
                            assert(reapply_model(
                                obnds.skip(j as int),
                                id@,
                                onode,
                                nnode,
                                head_world,
                                head_events,
                                mid.table,
                            ) == (ReapplyOutcome {
                                world: rest.world,
                                events: rest.events,
                                bindings: seq![b2] + rest.bindings,
                                error: rest.error,
                            }));
                            assert(self@.bindings.take(j as int) =~= head_bnds.take(j as int));
                            assert(self@.bindings.take(j + 1 as int) =~= self@.bindings.take(
                                j as int,
                            ).push(b2));
                            assert(head_bnds.take(j as int) + (seq![b2] + rest.bindings)
                                =~= self@.bindings.take(j + 1 as int) + rest.bindings);
                        }
                    },
                    Result::Err(e) => {
                        proof {
                            assert(self@.bindings.take(j as int) + obnds.skip(j as int)
                                =~= self@.bindings);
                        }
                        return Result::Err(e);
                    },
                }
            } else {
                proof {
                    let rest = reapply_model(
                        obnds.skip(j + 1 as int),
                        id@,
                        onode,
                        nnode,
                        self@.world,
                        self@.events,
                        mid.table,
                    );
                    assert(reapply_model(
                        obnds.skip(j as int),
                        id@,
                        onode,
                        nnode,
                        head_world,
                        head_events,
                        mid.table,
                    ) == (ReapplyOutcome {
                        world: rest.world,
                        events: rest.events,
                        bindings: seq![obnds[j as int]] + rest.bindings,
                        error: rest.error,
                    }));
                    assert(self@.bindings.take(j + 1 as int) =~= self@.bindings.take(
                        j as int,
                    ).push(self@.bindings[j as int]));
                    assert(self@.bindings[j as int] == obnds[j as int]);
                    assert(self@.bindings.take(j as int) + (seq![obnds[j as int]] + rest.bindings)
                        =~= self@.bindings.take(j + 1 as int) + rest.bindings);
                }
            }
            j = j + 1;
        }
        proof {
            assert(obnds.skip(n as int) =~= Seq::<BindingView>::empty());
            assert(self@.bindings.take(n as int) =~= self@.bindings);
            assert(self@.bindings + Seq::<BindingView>::empty() =~= self@.bindings);
        }
        Result::Ok(())
    }

    /// Unregister the template named `id`, firing the unregister hook and
    /// returning the handle it had. Objects the template is applied to keep
    /// their state: unregistration does not cascade into the world. Fails
    /// with [`ProtoError::UnknownTemplate`] when `id` is not loaded,
    /// changing nothing.
    pub fn unregister(&mut self, id: &String) -> (r: Result<u64, ProtoError>)
        requires
            old(self).wf(),
        ensures
            final(self).wf(),
            match r {
                Result::Ok(handle) => contains_id(old(self)@.store, id@) && exists|i: int|
                    0 <= i < old(self)@.store.len() && old(self)@.store[i].id == id@
                        && old(self)@.store[i].handle == handle && final(self)@ == (ManagerView {
                        store: old(self)@.store.remove(i),
                        events: old(self)@.events.push(
                            HookEventView::UnregisterPrototype { id: id@, handle },
                        ),
                        ..old(self)@
                    }),
                Result::Err(e) => !contains_id(old(self)@.store, id@) && e@
                    == (ProtoErrorView::UnknownTemplate { id: id@ }) && final(self)@ == old(self)@,
            },
    {
        match self.store.remove(id) {
            Result::Ok(t) => {
                let handle = t.handle;
                self.events.push(HookEvent::UnregisterPrototype { id: id.clone(), handle });
                proof {
                    let i = choose|i: int|
                        0 <= i < old(self)@.store.len() && old(self)@.store[i] == t@ && self@.store
                            == old(self)@.store.remove(i);
                    assert(old(self)@.store[i].id == id@);
                    assert forall|b: int|
                        0 <= b < self@.bindings.len() implies #[trigger] self@.bindings[b].object
                        < self@.world.len() by {
                        assert(self@.bindings[b] == old(self)@.bindings[b]);
                    }
                }
                Result::Ok(handle)
            },
            Result::Err(e) => Result::Err(e),
        }
    }

    /// Apply the template named `id` to the existing object `object`.
    ///
    /// The tree is resolved first — [`ProtoError::UnknownTemplate`] when
    /// `id` is not loaded, and otherwise exactly what [`resolve_node`]
    /// gives, in which cases nothing is changed and no hook fires — and the
    /// resolved tree is then applied exactly as [`apply_node_model`] gives;
    /// on success the binding of `object` to `id` is recorded.
    pub fn spawn_on(&mut self, id: &String, object: usize) -> (r: Result<(), ProtoError>)
        requires
            old(self).wf(),
            object < old(self)@.world.len(),
        ensures
            final(self).wf(),
            !contains_id(old(self)@.store, id@) ==> final(self)@ == old(self)@ && (match r {
                Result::Ok(()) => false,
                Result::Err(e) => e@ == (ProtoErrorView::UnknownTemplate { id: id@ }),
            }),
            contains_id(old(self)@.store, id@) ==> match resolve_node(
                old(self)@.store,
                id@,
                Seq::empty(),
                spec_cycle_response(old(self)@.config),
            ) {
                ResolveOutcome::Failed { error } => final(self)@ == old(self)@ && (match r {
                    Result::Ok(()) => false,
                    Result::Err(e) => e@ == error,
                }),
                ResolveOutcome::Done { node } => ({
                    let m = apply_node_model(
                        node,
                        object as int,
                        old(self)@.world,
                        old(self)@.events,
                        old(self)@.table,
                    );
                    final(self)@ == (ManagerView {
                        world: m.world,
                        events: m.events,
                        bindings: if m.error is None {
                            old(self)@.bindings.push(
                                BindingView {
                                    object: object as int,
                                    id: id@,
                                    trace: apply_node_trace(
                                        node,
                                        old(self)@.world.len() as int,
                                    ).trace,
                                },
                            )
                        } else {
                            old(self)@.bindings
                        },
                        ..old(self)@
                    }) && (match r {
                        Result::Ok(()) => m.error is None,
                        Result::Err(e) => m.error == Option::Some(e@),
                    })
                }),
            },
    {
        let response = self.config.cycle_response();
        let tree = match build_tree(&self.store, id, response) {
            Result::Ok(tree) => tree,
            Result::Err(e) => {
                return Result::Err(e);
            },
        };
        let r = apply_tree(&tree, object, &mut self.world, &self.table, &mut self.events);
        match r {
            Result::Ok(tr) => {
                let ghost trv = spawn_trace_view(tr);
                self.bindings.push(Binding { object, id: id.clone(), trace: tr });
                proof {
                    assert(self@.bindings =~= old(self)@.bindings.push(
                        BindingView { object: object as int, id: id@, trace: trv },
                    ));
                }
                Result::Ok(())
            },
            Result::Err(e) => Result::Err(e),
        }
    }

    /// Create a fresh object and apply the template named `id` to it,
    /// returning the new object's name. The object is created first, so it
    /// exists — possibly with partial state — even when the apply fails.
    pub fn spawn(&mut self, id: &String) -> (r: (usize, Result<(), ProtoError>))
        requires
            old(self).wf(),
        ensures
            final(self).wf(),
            r.0 == old(self)@.world.len(),
            ({
                let spawned = ManagerView {
                    world: old(self)@.world.push(Seq::empty()),
                    ..old(self)@
                };
                !contains_id(old(self)@.store, id@) ==> final(self)@ == spawned && (match r.1 {
                    Result::Ok(()) => false,
                    Result::Err(e) => e@ == (ProtoErrorView::UnknownTemplate { id: id@ }),
                })
            }),
            contains_id(old(self)@.store, id@) ==> match resolve_node(
                old(self)@.store,
                id@,
                Seq::empty(),
                spec_cycle_response(old(self)@.config),
            ) {
                ResolveOutcome::Failed { error } => final(self)@ == (ManagerView {
                    world: old(self)@.world.push(Seq::empty()),
                    ..old(self)@
                }) && (match r.1 {
                    Result::Ok(()) => false,
                    Result::Err(e) => e@ == error,
                }),
                ResolveOutcome::Done { node } => ({
                    let m = apply_node_model(
                        node,
                        r.0 as int,
                        old(self)@.world.push(Seq::empty()),
                        old(self)@.events,
                        old(self)@.table,
                    );
                    final(self)@ == (ManagerView {
                        world: m.world,
                        events: m.events,
                        bindings: if m.error is None {
                            old(self)@.bindings.push(
                                BindingView {
                                    object: r.0 as int,
                                    id: id@,
                                    trace: apply_node_trace(
                                        node,
                                        old(self)@.world.len() as int + 1,
                                    ).trace,
                                },
                            )
                        } else {
                            old(self)@.bindings
                        },
                        ..old(self)@
                    }) && (match r.1 {
                        Result::Ok(()) => m.error is None,
                        Result::Err(e) => m.error == Option::Some(e@),
                    })
                }),
            },
    {
        let o = self.world.spawn();
        let r = self.spawn_on(id, o);
        (o, r)
    }

    /// Remove the template named `id` from object `object`: the mirror of
    /// [`Manager::spawn_on`], exactly as [`remove_node_model`] gives. On
    /// success the oldest matching binding is dropped.
    pub fn remove_from(&mut self, id: &String, object: usize) -> (r: Result<(), ProtoError>)
        requires
            old(self).wf(),
            object < old(self)@.world.len(),
        ensures
            final(self).wf(),
            !contains_id(old(self)@.store, id@) ==> final(self)@ == old(self)@ && (match r {
                Result::Ok(()) => false,
                Result::Err(e) => e@ == (ProtoErrorView::UnknownTemplate { id: id@ }),
            }),
            contains_id(old(self)@.store, id@) ==> match resolve_node(
                old(self)@.store,
                id@,
                Seq::empty(),
                spec_cycle_response(old(self)@.config),
            ) {
                ResolveOutcome::Failed { error } => final(self)@ == old(self)@ && (match r {
                    Result::Ok(()) => false,
                    Result::Err(e) => e@ == error,
                }),
                ResolveOutcome::Done { node } => ({
                    let m = remove_node_model(
                        node,
                        object as int,
                        old(self)@.world,
                        old(self)@.events,
                        old(self)@.table,
                        binding_trace(old(self)@.bindings, object as int, id@),
                    );
                    final(self)@.world == m.world && final(self)@.events == m.events
                        && final(self)@.store == old(self)@.store
                        && final(self)@.table == old(self)@.table
                        && final(self)@.config == old(self)@.config
                        && final(self)@.next_handle == old(self)@.next_handle && (match r {
                        Result::Ok(()) => m.error is None && bindings_dropped(
                            old(self)@.bindings,
                            final(self)@.bindings,
                            object as int,
                            id@,
                        ),
                        Result::Err(e) => m.error == Option::Some(e@) && final(self)@.bindings
                            == old(self)@.bindings,
                    })
                }),
            },
    {
        let response = self.config.cycle_response();
        let tree = match build_tree(&self.store, id, response) {
            Result::Ok(tree) => tree,
            Result::Err(e) => {
                return Result::Err(e);
            },
        };
        let found = self.find_binding(id, object);
        let empty_record = SpawnTrace { steps: Vec::new() };
        proof {
            assert(spawn_trace_view(empty_record) =~~= empty_trace());
            match found {
                Option::Some(i) => {
                    lemma_binding_trace_at(self@.bindings, object as int, id@, i as int);
                },
                Option::None => {
                    lemma_binding_trace_at(
                        self@.bindings,
                        object as int,
                        id@,
                        self@.bindings.len() as int,
                    );
                },
            }
        }
        let record: &SpawnTrace = match found {
            Option::Some(i) => &self.bindings[i].trace,
            Option::None => &empty_record,
        };
        let r = remove_tree(&tree, object, &mut self.world, &self.table, &mut self.events, record);
        proof {
            assert forall|b: int|
                0 <= b < self@.bindings.len() implies #[trigger] self@.bindings[b].object
                < self@.world.len() by {
                assert(self@.bindings[b] == old(self)@.bindings[b]);
            }
        }
        match r {
            Result::Ok(()) => {
                self.drop_binding(id, object);
                Result::Ok(())
            },
            Result::Err(e) => Result::Err(e),
        }
    }

    /// The position of the oldest binding of `id` to `object`, if any.
    #[verifier::loop_isolation(false)]
    fn find_binding(&self, id: &String, object: usize) -> (r: Option<usize>)
        ensures
            match r {
                Option::Some(i) => i < self@.bindings.len() && self@.bindings[
                    i as int
                ].object == object as int && self@.bindings[i as int].id == id@ && forall|j: int|
                    0 <= j < i ==> !(#[trigger] self@.bindings[j].object == object as int
                        && self@.bindings[j].id == id@),
                Option::None => forall|j: int|
                    0 <= j < self@.bindings.len() ==> !(#[trigger] self@.bindings[j].object
                        == object as int && self@.bindings[j].id == id@),
            },
    {
        let n = self.bindings.len();
        let mut i: usize = 0;
        while i < n
            invariant
                i <= n,
                forall|j: int|
                    0 <= j < i ==> !(#[trigger] self@.bindings[j].object == object as int
                        && self@.bindings[j].id == id@),
            decreases n - i,
        {
            if self.bindings[i].object == object && self.bindings[i].id == *id {
                proof {
                    assert(self@.bindings[i as int].object == object as int);
                    assert(self@.bindings[i as int].id == id@);
                }
                return Option::Some(i);
            }
            i = i + 1;
        }
        Option::None
    }

    /// Which templates are currently applied to which objects, oldest
    /// binding first.
    pub fn bindings(&self) -> (r: &Vec<Binding>)
        ensures
            r@.len() == self@.bindings.len(),
            forall|i: int| 0 <= i < r@.len() ==> #[trigger] r@[i]@ == self@.bindings[i],
    {
        &self.bindings
    }

    /// How many objects exist in the world.
    pub fn object_count(&self) -> (r: usize)
        ensures
            r == self@.world.len(),
    {
        self.world.len()
    }

    /// Whether `object` exists and holds a capability of type `kind`.
    pub fn has_capability(&self, object: usize, kind: u64) -> (r: bool)
        ensures
            r == (object < self@.world.len() && crate::world::has_cap(
                self@.world[object as int],
                kind,
            )),
    {
        if object < self.world.len() {
            self.world.has_capability(object, kind)
        } else {
            false
        }
    }

    /// The payload of the capability of type `kind` on `object`, if the
    /// object exists and holds one.
    pub fn capability_payload(&self, object: usize, kind: u64) -> (r: Option<&Vec<u8>>)
        requires
            self.wf(),
        ensures
            match r {
                Option::Some(p) => object < self@.world.len() && crate::world::has_cap(
                    self@.world[object as int],
                    kind,
                ) && p@ == self@.world[object as int][crate::world::cap_index(
                    self@.world[object as int],
                    kind,
                )].payload,
                Option::None => object >= self@.world.len() || !crate::world::has_cap(
                    self@.world[object as int],
                    kind,
                ),
            },
    {
        if object < self.world.len() {
            self.world.capability_payload(object, kind)
        } else {
            Option::None
        }
    }

    /// Drop the oldest binding of `id` to `object`, if one is recorded.
    #[verifier::loop_isolation(false)]
    fn drop_binding(&mut self, id: &String, object: usize)
        requires
            old(self).wf(),
        ensures
            final(self).wf(),
            final(self)@.store == old(self)@.store,
            final(self)@.world == old(self)@.world,
            final(self)@.events == old(self)@.events,
            final(self)@.table == old(self)@.table,
            final(self)@.config == old(self)@.config,
            final(self)@.next_handle == old(self)@.next_handle,
            bindings_dropped(old(self)@.bindings, final(self)@.bindings, object as int, id@),
    {
        let n = self.bindings.len();
        let mut i: usize = 0;
        while i < n
            invariant
                n == self.bindings@.len(),
                i <= n,
                *self == *old(self),
                forall|j: int|
                    0 <= j < i ==> !(#[trigger] old(self)@.bindings[j].object == object as int
                        && old(self)@.bindings[j].id == id@),
            decreases n - i,
        {
            if self.bindings[i].object == object && self.bindings[i].id == *id {
                proof {
                    assert(old(self)@.bindings[i as int].object == object as int);
                    assert(old(self)@.bindings[i as int].id == id@);
                }
                self.bindings.remove(i);
                proof {
                    assert forall|b: int|
                        0 <= b < self@.bindings.len() implies #[trigger] self@.bindings[b].object
                        < self@.world.len() by {
                        if b < i {
                            assert(self@.bindings[b] == old(self)@.bindings[b]);
                        } else {
                            assert(self@.bindings[b] == old(self)@.bindings[b + 1]);
                        }
                    }
                    assert(self@.bindings =~= old(self)@.bindings.remove(i as int));
                }
                return ;
            }
            i = i + 1;
        }
        proof {
            if has_binding(old(self)@.bindings, object as int, id@) {
                let w = choose|w: int|
                    0 <= w < old(self)@.bindings.len() && old(self)@.bindings[w].object
                        == object as int && old(self)@.bindings[w].id == id@;
                assert(!(old(self)@.bindings[w].object == object as int
                    && old(self)@.bindings[w].id == id@));
            }
        }
    }
}

} // verus!
