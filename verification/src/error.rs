//! Errors reported by the engine.

use vstd::prelude::*;

verus! {

/// The mathematical content of a [`ProtoError`].
pub ghost enum ProtoErrorView {
    /// A register used an identifier already present in the store.
    DuplicateId { id: Seq<char> },
    /// A request named an identifier never registered.
    UnknownTemplate { id: Seq<char> },
    /// A schematic named a template identifier absent from the store at
    /// plan-build time.
    MissingDependency { id: Seq<char> },
    /// A template depends, directly or transitively, on itself and the
    /// configured response treats cycles as fatal. The path runs from the
    /// repeated identifier back to itself.
    CycleDetected { path: Seq<Seq<char>> },
    /// A specific schematic's apply failed, on the named object.
    SchematicApplyFailed { kind: u64, object: int },
    /// A specific schematic's removal failed, on the named object.
    SchematicRemoveFailed { kind: u64, object: int },
}

/// An error reported to the caller of a top-level request.
#[derive(Debug)]
pub enum ProtoError {
    /// A register used an identifier already present in the store.
    DuplicateId {
        /// The repeated identifier.
        id: String,
    },
    /// A request named an identifier never registered.
    UnknownTemplate {
        /// The unknown identifier.
        id: String,
    },
    /// A schematic named a template identifier absent from the store at
    /// plan-build time.
    MissingDependency {
        /// The absent identifier.
        id: String,
    },
    /// A template depends, directly or transitively, on itself and the
    /// configured response treats cycles as fatal.
    CycleDetected {
        /// The identifiers along the cycle, from the repeated identifier
        /// back to itself.
        path: Vec<String>,
    },
    /// A specific schematic's apply failed, on the named object.
    SchematicApplyFailed {
        /// Type identifier of the failing schematic.
        kind: u64,
        /// The object the schematic was being applied to.
        object: usize,
    },
    /// A specific schematic's removal failed, on the named object.
    SchematicRemoveFailed {
        /// Type identifier of the failing schematic.
        kind: u64,
        /// The object the schematic was being removed from.
        object: usize,
    },
}

impl View for ProtoError {
    type V = ProtoErrorView;

    open spec fn view(&self) -> ProtoErrorView {
        match self {
            ProtoError::DuplicateId { id } => ProtoErrorView::DuplicateId { id: id@ },
            ProtoError::UnknownTemplate { id } => ProtoErrorView::UnknownTemplate { id: id@ },
            ProtoError::MissingDependency { id } => ProtoErrorView::MissingDependency { id: id@ },
            ProtoError::CycleDetected { path } => ProtoErrorView::CycleDetected {
                path: Seq::new(path@.len(), |i: int| path@[i]@),
            },
            ProtoError::SchematicApplyFailed { kind, object } => {
                ProtoErrorView::SchematicApplyFailed { kind: *kind, object: *object as int }
            },
            ProtoError::SchematicRemoveFailed { kind, object } => {
                ProtoErrorView::SchematicRemoveFailed { kind: *kind, object: *object as int }
            },
        }
    }
}

} // verus!
