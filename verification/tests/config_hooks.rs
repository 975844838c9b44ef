use proto_engine::config::{CycleResponse, ProtoConfig};
use proto_engine::hooks::{HookEvent, HookHandler};

#[test]
fn default_config_has_no_handlers() {
    let config = ProtoConfig::default();
    let event = HookEvent::RegisterPrototype {
        id: "alpha".to_string(),
        handle: 0,
    };
    assert!(config.handler_for(&event).is_none());
    assert_eq!(config.cycle_response(), CycleResponse::Cancel);
}

#[test]
fn default_config_recognizes_both_suffixes() {
    let config = ProtoConfig::default();
    let exts = config.extensions();
    assert_eq!(exts.len(), 2);
    assert_eq!(exts[0], "prototype.yaml");
    assert_eq!(exts[1], "prototype.ron");
}

#[test]
fn builder_registers_each_slot_independently() {
    let config = ProtoConfig::default()
        .on_register_prototype(HookHandler { id: 1 })
        .on_before_apply_schematic(HookHandler { id: 2 })
        .on_after_apply_prototype(HookHandler { id: 3 });
    let register = HookEvent::RegisterPrototype {
        id: "a".to_string(),
        handle: 0,
    };
    let before_schematic = HookEvent::BeforeApplySchematic { kind: 7, object: 0 };
    let after_prototype = HookEvent::AfterApplyPrototype {
        id: "a".to_string(),
        object: 0,
    };
    let reload = HookEvent::ReloadPrototype {
        id: "a".to_string(),
        handle: 0,
    };
    assert_eq!(config.handler_for(&register), Some(HookHandler { id: 1 }));
    assert_eq!(
        config.handler_for(&before_schematic),
        Some(HookHandler { id: 2 })
    );
    assert_eq!(
        config.handler_for(&after_prototype),
        Some(HookHandler { id: 3 })
    );
    assert_eq!(config.handler_for(&reload), None);
}

#[test]
fn every_hook_slot_is_settable() {
    let config = ProtoConfig::default()
        .on_register_prototype(HookHandler { id: 1 })
        .on_reload_prototype(HookHandler { id: 2 })
        .on_unregister_prototype(HookHandler { id: 3 })
        .on_before_apply_prototype(HookHandler { id: 4 })
        .on_after_apply_prototype(HookHandler { id: 5 })
        .on_before_remove_prototype(HookHandler { id: 6 })
        .on_after_remove_prototype(HookHandler { id: 7 })
        .on_before_apply_schematic(HookHandler { id: 8 })
        .on_after_apply_schematic(HookHandler { id: 9 })
        .on_before_remove_schematic(HookHandler { id: 10 })
        .on_after_remove_schematic(HookHandler { id: 11 });
    let alpha = "alpha".to_string();
    let cases: Vec<(HookEvent, u64)> = vec![
        (HookEvent::RegisterPrototype { id: alpha.clone(), handle: 0 }, 1),
        (HookEvent::ReloadPrototype { id: alpha.clone(), handle: 0 }, 2),
        (HookEvent::UnregisterPrototype { id: alpha.clone(), handle: 0 }, 3),
        (HookEvent::BeforeApplyPrototype { id: alpha.clone(), object: 0 }, 4),
        (HookEvent::AfterApplyPrototype { id: alpha.clone(), object: 0 }, 5),
        (HookEvent::BeforeRemovePrototype { id: alpha.clone(), object: 0 }, 6),
        (HookEvent::AfterRemovePrototype { id: alpha.clone(), object: 0 }, 7),
        (HookEvent::BeforeApplySchematic { kind: 0, object: 0 }, 8),
        (HookEvent::AfterApplySchematic { kind: 0, object: 0 }, 9),
        (HookEvent::BeforeRemoveSchematic { kind: 0, object: 0 }, 10),
        (HookEvent::AfterRemoveSchematic { kind: 0, object: 0 }, 11),
    ];
    for (event, expected) in cases {
        assert_eq!(config.handler_for(&event), Some(HookHandler { id: expected }));
    }
}

#[test]
fn on_cycle_overrides_the_default_response() {
    let config = ProtoConfig::default().on_cycle(CycleResponse::Panic);
    assert_eq!(config.cycle_response(), CycleResponse::Panic);
    let config = ProtoConfig::default().on_cycle(CycleResponse::Cancel);
    assert_eq!(config.cycle_response(), CycleResponse::Cancel);
}
