//! Lifecycle hook events and the handler tokens the host registers for them.
//!
//! The engine does not store host callbacks itself: every operation records
//! the ordered sequence of lifecycle boundaries it crossed as [`HookEvent`]
//! values, and the host dispatches each event to the callback it registered
//! under the matching [`HookHandler`] token in the configuration.

use vstd::prelude::*;

verus! {

/// An opaque token naming a host-side callback.
///
/// The engine never interprets the token; it only hands it back to the host
/// so the host can find the closure it registered.
#[derive(Clone, Copy, PartialEq, Eq, Structural, Debug)]
pub struct HookHandler {
    /// Host-chosen identifier of the callback.
    pub id: u64,
}

/// The mathematical content of a [`HookEvent`].
pub ghost enum HookEventView {
    RegisterPrototype { id: Seq<char>, handle: u64 },
    ReloadPrototype { id: Seq<char>, handle: u64 },
    UnregisterPrototype { id: Seq<char>, handle: u64 },
    BeforeApplyPrototype { id: Seq<char>, object: int },
    AfterApplyPrototype { id: Seq<char>, object: int },
    BeforeRemovePrototype { id: Seq<char>, object: int },
    AfterRemovePrototype { id: Seq<char>, object: int },
    BeforeApplySchematic { kind: u64, object: int },
    AfterApplySchematic { kind: u64, object: int },
    BeforeRemoveSchematic { kind: u64, object: int },
    AfterRemoveSchematic { kind: u64, object: int },
}

/// One lifecycle boundary crossed by the engine, in the order it was
/// crossed. Each event corresponds to one hook slot of the configuration.
#[derive(Debug)]
pub enum HookEvent {
    /// A template was inserted into the store.
    RegisterPrototype {
        /// Identifier of the template.
        id: String,
        /// Handle assigned to the template.
        handle: u64,
    },
    /// An existing template's schematics were replaced.
    ReloadPrototype {
        /// Identifier of the template.
        id: String,
        /// Handle of the template, unchanged by the reload.
        handle: u64,
    },
    /// A template was removed from the store.
    UnregisterPrototype {
        /// Identifier of the template.
        id: String,
        /// Handle the template had.
        handle: u64,
    },
    /// A template's application to an object is about to begin.
    BeforeApplyPrototype {
        /// Identifier of the template.
        id: String,
        /// The target object.
        object: usize,
    },
    /// A template's application to an object finished.
    AfterApplyPrototype {
        /// Identifier of the template.
        id: String,
        /// The target object.
        object: usize,
    },
    /// A template's removal from an object is about to begin.
    BeforeRemovePrototype {
        /// Identifier of the template.
        id: String,
        /// The target object.
        object: usize,
    },
    /// A template's removal from an object finished.
    AfterRemovePrototype {
        /// Identifier of the template.
        id: String,
        /// The target object.
        object: usize,
    },
    /// A schematic's apply is about to run.
    BeforeApplySchematic {
        /// Type identifier of the schematic.
        kind: u64,
        /// The target object.
        object: usize,
    },
    /// A schematic's apply ran.
    AfterApplySchematic {
        /// Type identifier of the schematic.
        kind: u64,
        /// The target object.
        object: usize,
    },
    /// A schematic's removal is about to run.
    BeforeRemoveSchematic {
        /// Type identifier of the schematic.
        kind: u64,
        /// The target object.
        object: usize,
    },
    /// A schematic's removal ran.
    AfterRemoveSchematic {
        /// Type identifier of the schematic.
        kind: u64,
        /// The target object.
        object: usize,
    },
}

impl View for HookEvent {
    type V = HookEventView;

    open spec fn view(&self) -> HookEventView {
        match self {
            HookEvent::RegisterPrototype { id, handle } => HookEventView::RegisterPrototype {
                id: id@,
                handle: *handle,
            },
            HookEvent::ReloadPrototype { id, handle } => HookEventView::ReloadPrototype {
                id: id@,
                handle: *handle,
            },
            HookEvent::UnregisterPrototype { id, handle } => HookEventView::UnregisterPrototype {
                id: id@,
                handle: *handle,
            },
            HookEvent::BeforeApplyPrototype { id, object } => HookEventView::BeforeApplyPrototype {
                id: id@,
                object: *object as int,
            },
            HookEvent::AfterApplyPrototype { id, object } => HookEventView::AfterApplyPrototype {
                id: id@,
                object: *object as int,
            },
            HookEvent::BeforeRemovePrototype { id, object } => {
                HookEventView::BeforeRemovePrototype { id: id@, object: *object as int }
            },
            HookEvent::AfterRemovePrototype { id, object } => HookEventView::AfterRemovePrototype {
                id: id@,
                object: *object as int,
            },
            HookEvent::BeforeApplySchematic { kind, object } => {
                HookEventView::BeforeApplySchematic { kind: *kind, object: *object as int }
            },
            HookEvent::AfterApplySchematic { kind, object } => HookEventView::AfterApplySchematic {
                kind: *kind,
                object: *object as int,
            },
            HookEvent::BeforeRemoveSchematic { kind, object } => {
                HookEventView::BeforeRemoveSchematic { kind: *kind, object: *object as int }
            },
            HookEvent::AfterRemoveSchematic { kind, object } => {
                HookEventView::AfterRemoveSchematic { kind: *kind, object: *object as int }
            },
        }
    }
}

/// The views of an event log, in order.
pub open spec fn events_view(evs: Seq<HookEvent>) -> Seq<HookEventView> {
    Seq::new(evs.len(), |i: int| evs[i]@)
}

/// Appending one event to a log appends its view to the log's view.
pub broadcast proof fn lemma_events_view_push(evs: Seq<HookEvent>, e: HookEvent)
    ensures
        #[trigger] events_view(evs.push(e)) == events_view(evs).push(e@),
{
    assert(events_view(evs.push(e)) =~= events_view(evs).push(e@));
}

} // verus!
