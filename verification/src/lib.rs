//! A declarative object-templating engine.
//!
//! Named templates ("prototypes"), each a bundle of typed behaviour
//! descriptors ("schematics"), are kept in a registry and applied to live
//! runtime objects. A schematic may name another template as a nested
//! dependency, so applying a template means resolving a dependency tree,
//! pruning or rejecting cycles, and walking the tree in a fixed order while
//! firing lifecycle hooks at every boundary.

use vstd::prelude::*;

pub mod config;
pub mod engine;
pub mod error;
pub mod hooks;
pub mod laws;
pub mod manager;
pub mod store;
pub mod template;
pub mod tree;
pub mod world;

verus! {

} // verus!
