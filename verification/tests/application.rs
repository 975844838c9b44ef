use proto_engine::config::ProtoConfig;
use proto_engine::error::ProtoError;
use proto_engine::hooks::HookEvent;
use proto_engine::manager::Manager;
use proto_engine::template::Schematic;

#[test]
fn apply_inserts_capabilities_in_declaration_order() {
    let mut m = Manager::new(ProtoConfig::default());
    m.register_schematic_kind(1);
    m.register_schematic_kind(2);
    m.register_schematic_kind(3);
    m.register(
        "trio".to_string(),
        vec![
            Schematic::leaf(1, vec![10]),
            Schematic::leaf(2, vec![20]),
            Schematic::leaf(3, vec![30]),
        ],
    )
    .unwrap();
    m.take_events();
    let (o, r) = m.spawn(&"trio".to_string());
    r.unwrap();
    let events = m.take_events();
    // One template-level pair around three schematic-level pairs, in
    // declaration order.
    assert_eq!(events.len(), 8);
    assert!(matches!(&events[0], HookEvent::BeforeApplyPrototype { id, object } if id == "trio" && *object == o));
    assert!(matches!(&events[1], HookEvent::BeforeApplySchematic { kind: 1, object } if *object == o));
    assert!(matches!(&events[2], HookEvent::AfterApplySchematic { kind: 1, object } if *object == o));
    assert!(matches!(&events[3], HookEvent::BeforeApplySchematic { kind: 2, object } if *object == o));
    assert!(matches!(&events[4], HookEvent::AfterApplySchematic { kind: 2, object } if *object == o));
    assert!(matches!(&events[5], HookEvent::BeforeApplySchematic { kind: 3, object } if *object == o));
    assert!(matches!(&events[6], HookEvent::AfterApplySchematic { kind: 3, object } if *object == o));
    assert!(matches!(&events[7], HookEvent::AfterApplyPrototype { id, object } if id == "trio" && *object == o));
    assert!(m.has_capability(o, 1));
    assert!(m.has_capability(o, 2));
    assert!(m.has_capability(o, 3));
    assert_eq!(m.capability_payload(o, 2).unwrap(), &vec![20u8]);
}

#[test]
fn apply_order_is_stable_across_calls() {
    let mut m = Manager::new(ProtoConfig::default());
    m.register_schematic_kind(1);
    m.register_schematic_kind(2);
    m.register_schematic_kind(3);
    m.register(
        "trio".to_string(),
        vec![
            Schematic::leaf(1, vec![]),
            Schematic::leaf(2, vec![]),
            Schematic::leaf(3, vec![]),
        ],
    )
    .unwrap();
    let (o, r) = m.spawn(&"trio".to_string());
    r.unwrap();
    for _ in 0..3 {
        m.take_events();
        m.spawn_on(&"trio".to_string(), o).unwrap();
        let events = m.take_events();
        let kinds: Vec<u64> = events
            .iter()
            .filter_map(|e| match e {
                HookEvent::BeforeApplySchematic { kind, .. } => Some(*kind),
                _ => None,
            })
            .collect();
        assert_eq!(kinds, vec![1, 2, 3]);
    }
}

#[test]
fn remove_mirrors_apply_order() {
    let mut m = Manager::new(ProtoConfig::default());
    m.register_schematic_kind(1);
    m.register_schematic_kind(2);
    m.register_schematic_kind(3);
    m.register(
        "trio".to_string(),
        vec![
            Schematic::leaf(1, vec![]),
            Schematic::leaf(2, vec![]),
            Schematic::leaf(3, vec![]),
        ],
    )
    .unwrap();
    let (o, r) = m.spawn(&"trio".to_string());
    r.unwrap();
    m.take_events();
    m.remove_from(&"trio".to_string(), o).unwrap();
    let events = m.take_events();
    assert_eq!(events.len(), 8);
    assert!(matches!(&events[0], HookEvent::BeforeRemovePrototype { id, .. } if id == "trio"));
    // Schematic removal runs in reverse of the order they were applied.
    assert!(matches!(&events[1], HookEvent::BeforeRemoveSchematic { kind: 3, .. }));
    assert!(matches!(&events[2], HookEvent::AfterRemoveSchematic { kind: 3, .. }));
    assert!(matches!(&events[3], HookEvent::BeforeRemoveSchematic { kind: 2, .. }));
    assert!(matches!(&events[4], HookEvent::AfterRemoveSchematic { kind: 2, .. }));
    assert!(matches!(&events[5], HookEvent::BeforeRemoveSchematic { kind: 1, .. }));
    assert!(matches!(&events[6], HookEvent::AfterRemoveSchematic { kind: 1, .. }));
    assert!(matches!(&events[7], HookEvent::AfterRemovePrototype { id, .. } if id == "trio"));
    assert!(!m.has_capability(o, 1));
    assert!(!m.has_capability(o, 2));
    assert!(!m.has_capability(o, 3));
}

#[test]
fn nested_dependency_application_order() {
    // The end-to-end shape: a leaf template with no schematics and a root
    // whose only schematic depends on it.
    let mut m = Manager::new(ProtoConfig::default());
    m.register_schematic_kind(9);
    m.register("Leaf".to_string(), vec![]).unwrap();
    m.register(
        "Root".to_string(),
        vec![Schematic::depends_on(9, vec![42], "Leaf".to_string(), false)],
    )
    .unwrap();
    m.take_events();
    let (o, r) = m.spawn(&"Root".to_string());
    r.unwrap();
    let events = m.take_events();
    assert_eq!(events.len(), 6);
    assert!(matches!(&events[0], HookEvent::BeforeApplyPrototype { id, object } if id == "Root" && *object == o));
    assert!(matches!(&events[1], HookEvent::BeforeApplySchematic { kind: 9, .. }));
    assert!(matches!(&events[2], HookEvent::BeforeApplyPrototype { id, object } if id == "Leaf" && *object == o));
    assert!(matches!(&events[3], HookEvent::AfterApplyPrototype { id, object } if id == "Leaf" && *object == o));
    assert!(matches!(&events[4], HookEvent::AfterApplySchematic { kind: 9, .. }));
    assert!(matches!(&events[5], HookEvent::AfterApplyPrototype { id, object } if id == "Root" && *object == o));
    // The root's capability is present on the object.
    assert!(m.has_capability(o, 9));
    assert_eq!(m.capability_payload(o, 9).unwrap(), &vec![42u8]);
}

#[test]
fn spawn_child_schematic_targets_fresh_object() {
    let mut m = Manager::new(ProtoConfig::default());
    m.register_schematic_kind(1);
    m.register_schematic_kind(2);
    m.register("child".to_string(), vec![Schematic::leaf(2, vec![5])])
        .unwrap();
    m.register(
        "parent".to_string(),
        vec![Schematic::depends_on(1, vec![], "child".to_string(), true)],
    )
    .unwrap();
    let (o, r) = m.spawn(&"parent".to_string());
    r.unwrap();
    assert_eq!(m.object_count(), 2);
    let child_object = o + 1;
    // The parent's own capability lands on the parent object; the child
    // template's capability lands on the freshly created object.
    assert!(m.has_capability(o, 1));
    assert!(!m.has_capability(o, 2));
    assert!(m.has_capability(child_object, 2));
    assert_eq!(m.capability_payload(child_object, 2).unwrap(), &vec![5u8]);
}

#[test]
fn remove_tears_down_spawned_child() {
    let mut m = Manager::new(ProtoConfig::default());
    m.register_schematic_kind(1);
    m.register_schematic_kind(2);
    m.register("child".to_string(), vec![Schematic::leaf(2, vec![5])])
        .unwrap();
    m.register(
        "parent".to_string(),
        vec![Schematic::depends_on(1, vec![], "child".to_string(), true)],
    )
    .unwrap();
    let (o, r) = m.spawn(&"parent".to_string());
    r.unwrap();
    let child_object = o + 1;
    assert!(m.has_capability(child_object, 2));
    m.take_events();
    m.remove_from(&"parent".to_string(), o).unwrap();
    // Teardown mirrors construction: the child template is removed from
    // the object it was spawned onto, with its own remove hooks fired.
    assert!(!m.has_capability(o, 1));
    assert!(!m.has_capability(child_object, 2));
    let events = m.take_events();
    assert_eq!(events.len(), 8);
    assert!(matches!(&events[0], HookEvent::BeforeRemovePrototype { id, object } if id == "parent" && *object == o));
    assert!(matches!(&events[1], HookEvent::BeforeRemoveSchematic { kind: 1, object } if *object == o));
    assert!(matches!(&events[2], HookEvent::BeforeRemovePrototype { id, object } if id == "child" && *object == child_object));
    assert!(matches!(&events[3], HookEvent::BeforeRemoveSchematic { kind: 2, object } if *object == child_object));
    assert!(matches!(&events[4], HookEvent::AfterRemoveSchematic { kind: 2, object } if *object == child_object));
    assert!(matches!(&events[5], HookEvent::AfterRemovePrototype { id, object } if id == "child" && *object == child_object));
    assert!(matches!(&events[6], HookEvent::AfterRemoveSchematic { kind: 1, object } if *object == o));
    assert!(matches!(&events[7], HookEvent::AfterRemovePrototype { id, object } if id == "parent" && *object == o));
}

#[test]
fn each_application_keeps_its_own_record() {
    let mut m = Manager::new(ProtoConfig::default());
    m.register_schematic_kind(1);
    m.register_schematic_kind(2);
    m.register("child".to_string(), vec![Schematic::leaf(2, vec![5])])
        .unwrap();
    m.register(
        "parent".to_string(),
        vec![Schematic::depends_on(1, vec![], "child".to_string(), true)],
    )
    .unwrap();
    let (o, r) = m.spawn(&"parent".to_string());
    r.unwrap();
    m.spawn_on(&"parent".to_string(), o).unwrap();
    let first_child = o + 1;
    let second_child = o + 2;
    assert!(m.has_capability(first_child, 2));
    assert!(m.has_capability(second_child, 2));
    // The oldest binding's record is consumed first, then the newer one.
    m.remove_from(&"parent".to_string(), o).unwrap();
    assert!(!m.has_capability(first_child, 2));
    assert!(m.has_capability(second_child, 2));
    m.remove_from(&"parent".to_string(), o).unwrap();
    assert!(!m.has_capability(second_child, 2));
}

#[test]
fn reload_tears_down_spawned_child_before_reapplying() {
    let mut m = Manager::new(ProtoConfig::default());
    m.register_schematic_kind(1);
    m.register_schematic_kind(2);
    m.register("child".to_string(), vec![Schematic::leaf(2, vec![5])])
        .unwrap();
    m.register(
        "parent".to_string(),
        vec![Schematic::depends_on(1, vec![], "child".to_string(), true)],
    )
    .unwrap();
    let (o, r) = m.spawn(&"parent".to_string());
    r.unwrap();
    let first_child = o + 1;
    assert!(m.has_capability(first_child, 2));
    m.reload(
        &"parent".to_string(),
        vec![Schematic::depends_on(1, vec![], "child".to_string(), true)],
    )
    .unwrap();
    // The re-application removed the old child's state through the record
    // and spawned a fresh child for the new tree.
    let second_child = first_child + 1;
    assert!(!m.has_capability(first_child, 2));
    assert!(m.has_capability(second_child, 2));
    assert_eq!(m.object_count(), 3);
    // A second removal now reaches the fresh child through the renewed
    // record.
    m.remove_from(&"parent".to_string(), o).unwrap();
    assert!(!m.has_capability(second_child, 2));
}

#[test]
fn reapply_replaces_capability_payload_in_place() {
    let mut m = Manager::new(ProtoConfig::default());
    m.register_schematic_kind(1);
    m.register("alpha".to_string(), vec![Schematic::leaf(1, vec![1])])
        .unwrap();
    let (o, r) = m.spawn(&"alpha".to_string());
    r.unwrap();
    assert_eq!(m.capability_payload(o, 1).unwrap(), &vec![1u8]);
    m.register_schematic_kind(2);
    m.register("beta".to_string(), vec![Schematic::leaf(1, vec![2])])
        .unwrap();
    m.spawn_on(&"beta".to_string(), o).unwrap();
    // Inserting a capability of a kind the object already holds replaces
    // its payload without duplicating the capability.
    assert_eq!(m.capability_payload(o, 1).unwrap(), &vec![2u8]);
}

#[test]
fn applying_the_same_template_twice_is_idempotent_on_state() {
    let mut m = Manager::new(ProtoConfig::default());
    m.register_schematic_kind(1);
    m.register_schematic_kind(2);
    m.register(
        "pair".to_string(),
        vec![Schematic::leaf(1, vec![7]), Schematic::leaf(2, vec![8])],
    )
    .unwrap();
    let (o, r) = m.spawn(&"pair".to_string());
    r.unwrap();
    let first_1 = m.capability_payload(o, 1).unwrap().clone();
    let first_2 = m.capability_payload(o, 2).unwrap().clone();
    m.spawn_on(&"pair".to_string(), o).unwrap();
    assert_eq!(m.capability_payload(o, 1).unwrap(), &first_1);
    assert_eq!(m.capability_payload(o, 2).unwrap(), &first_2);
    assert_eq!(m.object_count(), 1);
}

#[test]
fn bindings_record_applications_in_order() {
    let mut m = Manager::new(ProtoConfig::default());
    m.register("a".to_string(), vec![]).unwrap();
    m.register("b".to_string(), vec![]).unwrap();
    let (o1, r1) = m.spawn(&"a".to_string());
    r1.unwrap();
    let (o2, r2) = m.spawn(&"b".to_string());
    r2.unwrap();
    m.spawn_on(&"a".to_string(), o2).unwrap();
    let bindings = m.bindings();
    assert_eq!(bindings.len(), 3);
    assert_eq!((bindings[0].object, bindings[0].id.as_str()), (o1, "a"));
    assert_eq!((bindings[1].object, bindings[1].id.as_str()), (o2, "b"));
    assert_eq!((bindings[2].object, bindings[2].id.as_str()), (o2, "a"));
    m.remove_from(&"a".to_string(), o2).unwrap();
    let bindings = m.bindings();
    assert_eq!(bindings.len(), 2);
    assert_eq!((bindings[1].object, bindings[1].id.as_str()), (o2, "b"));
}

#[test]
fn apply_unknown_template_fails_without_hooks() {
    let mut m = Manager::new(ProtoConfig::default());
    m.register("alpha".to_string(), vec![]).unwrap();
    m.take_events();
    let (_, r) = m.spawn(&"ghost".to_string());
    assert!(matches!(r, Err(ProtoError::UnknownTemplate { ref id }) if id == "ghost"));
    assert_eq!(m.take_events().len(), 0);
}

#[test]
fn unregistered_schematic_kind_fails_apply() {
    let mut m = Manager::new(ProtoConfig::default());
    m.register("alpha".to_string(), vec![Schematic::leaf(5, vec![])])
        .unwrap();
    let (o, r) = m.spawn(&"alpha".to_string());
    assert!(matches!(
        r,
        Err(ProtoError::SchematicApplyFailed { kind: 5, object }) if object == o
    ));
    assert!(!m.has_capability(o, 5));
}

#[test]
fn failed_apply_keeps_earlier_schematics_applied() {
    let mut m = Manager::new(ProtoConfig::default());
    m.register_schematic_kind(1);
    m.register(
        "alpha".to_string(),
        vec![Schematic::leaf(1, vec![]), Schematic::leaf(5, vec![])],
    )
    .unwrap();
    let (o, r) = m.spawn(&"alpha".to_string());
    assert!(matches!(r, Err(ProtoError::SchematicApplyFailed { kind: 5, .. })));
    // No rollback: the first schematic's capability stays.
    assert!(m.has_capability(o, 1));
    assert!(!m.has_capability(o, 5));
}

#[test]
fn unregistered_schematic_kind_fails_removal() {
    let mut m = Manager::new(ProtoConfig::default());
    m.register_schematic_kind(1);
    m.register("alpha".to_string(), vec![Schematic::leaf(1, vec![])])
        .unwrap();
    let (o, r) = m.spawn(&"alpha".to_string());
    r.unwrap();
    // After a reload the template's only schematic has a kind the dispatch
    // table does not know, so the removal phase fails.
    let rr = m.reload(&"alpha".to_string(), vec![Schematic::leaf(6, vec![])]);
    assert!(matches!(rr, Err(ProtoError::SchematicApplyFailed { .. }) | Err(ProtoError::SchematicRemoveFailed { .. })));
    let r2 = m.remove_from(&"alpha".to_string(), o);
    assert!(matches!(
        r2,
        Err(ProtoError::SchematicRemoveFailed { kind: 6, object }) if object == o
    ));
}
