use proto_engine::config::{CycleResponse, ProtoConfig};
use proto_engine::error::ProtoError;
use proto_engine::hooks::HookEvent;
use proto_engine::manager::Manager;
use proto_engine::template::Schematic;

#[test]
fn cycle_is_pruned_under_cancel() {
    // A depends on B, B depends on A; the default response prunes.
    let mut m = Manager::new(ProtoConfig::default());
    m.register_schematic_kind(1);
    m.register_schematic_kind(2);
    m.register(
        "A".to_string(),
        vec![Schematic::depends_on(1, vec![], "B".to_string(), false)],
    )
    .unwrap();
    m.register(
        "B".to_string(),
        vec![Schematic::depends_on(2, vec![], "A".to_string(), false)],
    )
    .unwrap();
    m.take_events();
    let (o, r) = m.spawn(&"A".to_string());
    r.unwrap();
    // Both templates were applied once; the repeated A edge was dropped.
    assert!(m.has_capability(o, 1));
    assert!(m.has_capability(o, 2));
    let events = m.take_events();
    let applied: Vec<String> = events
        .iter()
        .filter_map(|e| match e {
            HookEvent::BeforeApplyPrototype { id, .. } => Some(id.clone()),
            _ => None,
        })
        .collect();
    assert_eq!(applied, vec!["A".to_string(), "B".to_string()]);
}

#[test]
fn cycle_is_fatal_under_panic() {
    let config = ProtoConfig::default().on_cycle(CycleResponse::Panic);
    let mut m = Manager::new(config);
    m.register_schematic_kind(1);
    m.register_schematic_kind(2);
    m.register(
        "A".to_string(),
        vec![Schematic::depends_on(1, vec![], "B".to_string(), false)],
    )
    .unwrap();
    m.register(
        "B".to_string(),
        vec![Schematic::depends_on(2, vec![], "A".to_string(), false)],
    )
    .unwrap();
    m.take_events();
    let (o, r) = m.spawn(&"A".to_string());
    match r {
        Err(ProtoError::CycleDetected { path }) => {
            // The record runs from the repeated identifier back to itself.
            assert_eq!(path, vec!["A".to_string(), "B".to_string(), "A".to_string()]);
        }
        other => panic!("expected a cycle failure, got {:?}", other),
    }
    // No application happened and no apply hooks fired.
    assert!(!m.has_capability(o, 1));
    assert!(!m.has_capability(o, 2));
    assert_eq!(m.take_events().len(), 0);
}

#[test]
fn self_cycle_is_pruned_under_cancel() {
    let mut m = Manager::new(ProtoConfig::default());
    m.register_schematic_kind(1);
    m.register(
        "A".to_string(),
        vec![Schematic::depends_on(1, vec![], "A".to_string(), false)],
    )
    .unwrap();
    let (o, r) = m.spawn(&"A".to_string());
    r.unwrap();
    assert!(m.has_capability(o, 1));
}

#[test]
fn missing_dependency_aborts_build() {
    let mut m = Manager::new(ProtoConfig::default());
    m.register_schematic_kind(1);
    m.register(
        "root".to_string(),
        vec![Schematic::depends_on(1, vec![], "X".to_string(), false)],
    )
    .unwrap();
    m.take_events();
    let (o, r) = m.spawn(&"root".to_string());
    assert!(matches!(r, Err(ProtoError::MissingDependency { ref id }) if id == "X"));
    // No partial application: nothing reached the object, no hook fired.
    assert!(!m.has_capability(o, 1));
    assert_eq!(m.take_events().len(), 0);
}

#[test]
fn missing_dependency_deep_in_tree_aborts_whole_build() {
    let mut m = Manager::new(ProtoConfig::default());
    m.register_schematic_kind(1);
    m.register_schematic_kind(2);
    m.register(
        "mid".to_string(),
        vec![Schematic::depends_on(2, vec![], "X".to_string(), false)],
    )
    .unwrap();
    m.register(
        "top".to_string(),
        vec![Schematic::depends_on(1, vec![], "mid".to_string(), false)],
    )
    .unwrap();
    let (o, r) = m.spawn(&"top".to_string());
    assert!(matches!(r, Err(ProtoError::MissingDependency { ref id }) if id == "X"));
    assert!(!m.has_capability(o, 1));
    assert!(!m.has_capability(o, 2));
}

#[test]
fn empty_template_applies_cleanly() {
    let mut m = Manager::new(ProtoConfig::default());
    m.register("empty".to_string(), vec![]).unwrap();
    m.take_events();
    let (o, r) = m.spawn(&"empty".to_string());
    r.unwrap();
    let events = m.take_events();
    assert_eq!(events.len(), 2);
    assert!(matches!(&events[0], HookEvent::BeforeApplyPrototype { id, .. } if id == "empty"));
    assert!(matches!(&events[1], HookEvent::AfterApplyPrototype { id, .. } if id == "empty"));
    assert_eq!(o, 0);
}
