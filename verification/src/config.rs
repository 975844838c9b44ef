//! Configuration for the engine: hook handler slots, the cycle response and
//! the recognized source-file suffixes.

use vstd::prelude::*;

use crate::hooks::{HookEvent, HookEventView, HookHandler};

verus! {

/// What the engine does when a template is found to depend, directly or
/// transitively, on itself.
#[derive(Clone, Copy, PartialEq, Eq, Structural, Debug)]
pub enum CycleResponse {
    /// Drop the cyclic branch silently and keep building the rest of the
    /// plan: the self-referencing edge is pruned.
    Cancel,
    /// Treat the cycle as fatal: the whole request aborts with
    /// [`crate::error::ProtoError::CycleDetected`].
    Panic,
}

/// The mathematical content of a [`ProtoConfig`].
pub ghost struct ConfigView {
    pub extensions: Seq<Seq<char>>,
    pub on_register_prototype: Option<HookHandler>,
    pub on_reload_prototype: Option<HookHandler>,
    pub on_unregister_prototype: Option<HookHandler>,
    pub on_before_apply_prototype: Option<HookHandler>,
    pub on_after_apply_prototype: Option<HookHandler>,
    pub on_before_remove_prototype: Option<HookHandler>,
    pub on_after_remove_prototype: Option<HookHandler>,
    pub on_before_apply_schematic: Option<HookHandler>,
    pub on_after_apply_schematic: Option<HookHandler>,
    pub on_before_remove_schematic: Option<HookHandler>,
    pub on_after_remove_schematic: Option<HookHandler>,
    pub on_cycle: Option<CycleResponse>,
}

/// The handler slot, if any, that a configuration assigns to an event.
pub open spec fn spec_handler_for(c: ConfigView, e: HookEventView) -> Option<HookHandler> {
    match e {
        HookEventView::RegisterPrototype { .. } => c.on_register_prototype,
        HookEventView::ReloadPrototype { .. } => c.on_reload_prototype,
        HookEventView::UnregisterPrototype { .. } => c.on_unregister_prototype,
        HookEventView::BeforeApplyPrototype { .. } => c.on_before_apply_prototype,
        HookEventView::AfterApplyPrototype { .. } => c.on_after_apply_prototype,
        HookEventView::BeforeRemovePrototype { .. } => c.on_before_remove_prototype,
        HookEventView::AfterRemovePrototype { .. } => c.on_after_remove_prototype,
        HookEventView::BeforeApplySchematic { .. } => c.on_before_apply_schematic,
        HookEventView::AfterApplySchematic { .. } => c.on_after_apply_schematic,
        HookEventView::BeforeRemoveSchematic { .. } => c.on_before_remove_schematic,
        HookEventView::AfterRemoveSchematic { .. } => c.on_after_remove_schematic,
    }
}

/// The cycle response a configuration selects: the registered response if
/// one was set, otherwise [`CycleResponse::Cancel`].
pub open spec fn spec_cycle_response(c: ConfigView) -> CycleResponse {
    match c.on_cycle {
        Option::Some(r) => r,
        Option::None => CycleResponse::Cancel,
    }
}

/// The configuration of the engine.
///
/// Built in builder style: each `on_*` method registers the handler token
/// for one lifecycle hook slot and returns the updated configuration. A
/// slot left unset means the host registered no callback there.
pub struct ProtoConfig {
    extensions: Vec<String>,
    on_register_prototype: Option<HookHandler>,
    on_reload_prototype: Option<HookHandler>,
    on_unregister_prototype: Option<HookHandler>,
    on_before_apply_prototype: Option<HookHandler>,
    on_after_apply_prototype: Option<HookHandler>,
    on_before_remove_prototype: Option<HookHandler>,
    on_after_remove_prototype: Option<HookHandler>,
    on_before_apply_schematic: Option<HookHandler>,
    on_after_apply_schematic: Option<HookHandler>,
    on_before_remove_schematic: Option<HookHandler>,
    on_after_remove_schematic: Option<HookHandler>,
    on_cycle: Option<CycleResponse>,
}

impl View for ProtoConfig {
    type V = ConfigView;

    closed spec fn view(&self) -> ConfigView {
        ConfigView {
            extensions: Seq::new(self.extensions@.len(), |i: int| self.extensions@[i]@),
            on_register_prototype: self.on_register_prototype,
            on_reload_prototype: self.on_reload_prototype,
            on_unregister_prototype: self.on_unregister_prototype,
            on_before_apply_prototype: self.on_before_apply_prototype,
            on_after_apply_prototype: self.on_after_apply_prototype,
            on_before_remove_prototype: self.on_before_remove_prototype,
            on_after_remove_prototype: self.on_after_remove_prototype,
            on_before_apply_schematic: self.on_before_apply_schematic,
            on_after_apply_schematic: self.on_after_apply_schematic,
            on_before_remove_schematic: self.on_before_remove_schematic,
            on_after_remove_schematic: self.on_after_remove_schematic,
            on_cycle: self.on_cycle,
        }
    }
}

impl ProtoConfig {
    /// Register the handler for the register-prototype hook.
    pub fn on_register_prototype(self, callback: HookHandler) -> (r: Self)
        ensures
            r@ == (ConfigView { on_register_prototype: Option::Some(callback), ..self@ }),
    {
        let mut c = self;
        c.on_register_prototype = Option::Some(callback);
        c
    }

    /// Register the handler for the reload-prototype hook.
    pub fn on_reload_prototype(self, callback: HookHandler) -> (r: Self)
        ensures
            r@ == (ConfigView { on_reload_prototype: Option::Some(callback), ..self@ }),
    {
        let mut c = self;
        c.on_reload_prototype = Option::Some(callback);
        c
    }

    /// Register the handler for the unregister-prototype hook.
    pub fn on_unregister_prototype(self, callback: HookHandler) -> (r: Self)
        ensures
            r@ == (ConfigView { on_unregister_prototype: Option::Some(callback), ..self@ }),
    {
        let mut c = self;
        c.on_unregister_prototype = Option::Some(callback);
        c
    }

    /// Register the handler fired before a template is applied to an object.
    pub fn on_before_apply_prototype(self, callback: HookHandler) -> (r: Self)
        ensures
            r@ == (ConfigView { on_before_apply_prototype: Option::Some(callback), ..self@ }),
    {
        let mut c = self;
        c.on_before_apply_prototype = Option::Some(callback);
        c
    }

    /// Register the handler fired after a template is applied to an object.
    pub fn on_after_apply_prototype(self, callback: HookHandler) -> (r: Self)
        ensures
            r@ == (ConfigView { on_after_apply_prototype: Option::Some(callback), ..self@ }),
    {
        let mut c = self;
        c.on_after_apply_prototype = Option::Some(callback);
        c
    }

    /// Register the handler fired before a template is removed from an
    /// object.
    pub fn on_before_remove_prototype(self, callback: HookHandler) -> (r: Self)
        ensures
            r@ == (ConfigView { on_before_remove_prototype: Option::Some(callback), ..self@ }),
    {
        let mut c = self;
        c.on_before_remove_prototype = Option::Some(callback);
        c
    }

    /// Register the handler fired after a template is removed from an
    /// object.
    pub fn on_after_remove_prototype(self, callback: HookHandler) -> (r: Self)
        ensures
            r@ == (ConfigView { on_after_remove_prototype: Option::Some(callback), ..self@ }),
    {
        let mut c = self;
        c.on_after_remove_prototype = Option::Some(callback);
        c
    }

    /// Register the handler fired before one schematic's apply runs.
    pub fn on_before_apply_schematic(self, callback: HookHandler) -> (r: Self)
        ensures
            r@ == (ConfigView { on_before_apply_schematic: Option::Some(callback), ..self@ }),
    {
        let mut c = self;
        c.on_before_apply_schematic = Option::Some(callback);
        c
    }

    /// Register the handler fired after one schematic's apply ran.
    pub fn on_after_apply_schematic(self, callback: HookHandler) -> (r: Self)
        ensures
            r@ == (ConfigView { on_after_apply_schematic: Option::Some(callback), ..self@ }),
    {
        let mut c = self;
        c.on_after_apply_schematic = Option::Some(callback);
        c
    }

    /// Register the handler fired before one schematic's removal runs.
    pub fn on_before_remove_schematic(self, callback: HookHandler) -> (r: Self)
        ensures
            r@ == (ConfigView { on_before_remove_schematic: Option::Some(callback), ..self@ }),
    {
        let mut c = self;
        c.on_before_remove_schematic = Option::Some(callback);
        c
    }

    /// Register the handler fired after one schematic's removal ran.
    pub fn on_after_remove_schematic(self, callback: HookHandler) -> (r: Self)
        ensures
            r@ == (ConfigView { on_after_remove_schematic: Option::Some(callback), ..self@ }),
    {
        let mut c = self;
        c.on_after_remove_schematic = Option::Some(callback);
        c
    }

    /// Register the response used when a dependency cycle is found. With no
    /// registered response, cycles are pruned ([`CycleResponse::Cancel`]).
    pub fn on_cycle(self, callback: CycleResponse) -> (r: Self)
        ensures
            r@ == (ConfigView { on_cycle: Option::Some(callback), ..self@ }),
    {
        let mut c = self;
        c.on_cycle = Option::Some(callback);
        c
    }

    /// The recognized file-name suffixes that mark a source as a template.
    pub fn extensions(&self) -> (r: &Vec<String>)
        ensures
            Seq::new(r@.len(), |i: int| r@[i]@) == self@.extensions,
    {
        &self.extensions
    }

    /// The handler registered for the slot that `event` belongs to, if any.
    pub fn handler_for(&self, event: &HookEvent) -> (r: Option<HookHandler>)
        ensures
            r == spec_handler_for(self@, event@),
    {
        match event {
            HookEvent::RegisterPrototype { .. } => self.on_register_prototype,
            HookEvent::ReloadPrototype { .. } => self.on_reload_prototype,
            HookEvent::UnregisterPrototype { .. } => self.on_unregister_prototype,
            HookEvent::BeforeApplyPrototype { .. } => self.on_before_apply_prototype,
            HookEvent::AfterApplyPrototype { .. } => self.on_after_apply_prototype,
            HookEvent::BeforeRemovePrototype { .. } => self.on_before_remove_prototype,
            HookEvent::AfterRemovePrototype { .. } => self.on_after_remove_prototype,
            HookEvent::BeforeApplySchematic { .. } => self.on_before_apply_schematic,
            HookEvent::AfterApplySchematic { .. } => self.on_after_apply_schematic,
            HookEvent::BeforeRemoveSchematic { .. } => self.on_before_remove_schematic,
            HookEvent::AfterRemoveSchematic { .. } => self.on_after_remove_schematic,
        }
    }

    /// The effective cycle response: the registered one, or pruning by
    /// default.
    pub fn cycle_response(&self) -> (r: CycleResponse)
        ensures
            r == spec_cycle_response(self@),
    {
        match self.on_cycle {
            Option::Some(r) => r,
            Option::None => CycleResponse::Cancel,
        }
    }
}

impl Default for ProtoConfig {
    /// A configuration with every hook slot unset, the default cycle
    /// response, and the two recognized template suffixes.
    fn default() -> (r: Self)
        ensures
            r@.extensions == seq!["prototype.yaml"@, "prototype.ron"@],
            r@.on_register_prototype is None,
            r@.on_reload_prototype is None,
            r@.on_unregister_prototype is None,
            r@.on_before_apply_prototype is None,
            r@.on_after_apply_prototype is None,
            r@.on_before_remove_prototype is None,
            r@.on_after_remove_prototype is None,
            r@.on_before_apply_schematic is None,
            r@.on_after_apply_schematic is None,
            r@.on_before_remove_schematic is None,
            r@.on_after_remove_schematic is None,
            r@.on_cycle is None,
    {
        let mut extensions: Vec<String> = Vec::new();
        extensions.push(String::from_str("prototype.yaml"));
        extensions.push(String::from_str("prototype.ron"));
        let r = ProtoConfig {
            extensions,
            on_register_prototype: Option::None,
            on_reload_prototype: Option::None,
            on_unregister_prototype: Option::None,
            on_before_apply_prototype: Option::None,
            on_after_apply_prototype: Option::None,
            on_before_remove_prototype: Option::None,
            on_after_remove_prototype: Option::None,
            on_before_apply_schematic: Option::None,
            on_after_apply_schematic: Option::None,
            on_before_remove_schematic: Option::None,
            on_after_remove_schematic: Option::None,
            on_cycle: Option::None,
        };
        proof {
            assert(r@.extensions =~= seq!["prototype.yaml"@, "prototype.ron"@]);
        }
        r
    }
}

} // verus!
