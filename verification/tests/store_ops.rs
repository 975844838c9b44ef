use proto_engine::config::ProtoConfig;
use proto_engine::error::ProtoError;
use proto_engine::hooks::HookEvent;
use proto_engine::manager::Manager;
use proto_engine::template::Schematic;

#[test]
fn register_distinct_ids_all_present() {
    let mut m = Manager::new(ProtoConfig::default());
    m.register("alpha".to_string(), vec![]).unwrap();
    m.register("beta".to_string(), vec![]).unwrap();
    m.register("gamma".to_string(), vec![]).unwrap();
    assert!(m.lookup(&"alpha".to_string()).is_some());
    assert!(m.lookup(&"beta".to_string()).is_some());
    assert!(m.lookup(&"gamma".to_string()).is_some());
    assert!(m.lookup(&"delta".to_string()).is_none());
}

#[test]
fn register_duplicate_id_fails() {
    let mut m = Manager::new(ProtoConfig::default());
    m.register("alpha".to_string(), vec![]).unwrap();
    let r = m.register("alpha".to_string(), vec![Schematic::leaf(7, vec![])]);
    assert!(matches!(r, Err(ProtoError::DuplicateId { ref id }) if id == "alpha"));
    // The first registration is untouched.
    let t = m.lookup(&"alpha".to_string()).unwrap();
    assert_eq!(t.schematics.len(), 0);
}

#[test]
fn register_assigns_distinct_handles() {
    let mut m = Manager::new(ProtoConfig::default());
    let h1 = m.register("alpha".to_string(), vec![]).unwrap();
    let h2 = m.register("beta".to_string(), vec![]).unwrap();
    assert_ne!(h1, h2);
    assert_eq!(m.lookup_by_handle(h1).unwrap().id, "alpha");
    assert_eq!(m.lookup_by_handle(h2).unwrap().id, "beta");
}

#[test]
fn reload_preserves_handle() {
    let mut m = Manager::new(ProtoConfig::default());
    m.register_schematic_kind(1);
    let before = m.register("alpha".to_string(), vec![]).unwrap();
    m.reload(&"alpha".to_string(), vec![Schematic::leaf(1, vec![9])])
        .unwrap();
    let t = m.lookup(&"alpha".to_string()).unwrap();
    assert_eq!(t.handle, before);
    assert_eq!(t.schematics.len(), 1);
    assert_eq!(t.schematics[0].kind, 1);
}

#[test]
fn reload_unknown_id_fails() {
    let mut m = Manager::new(ProtoConfig::default());
    let r = m.reload(&"ghost".to_string(), vec![]);
    assert!(matches!(r, Err(ProtoError::UnknownTemplate { ref id }) if id == "ghost"));
}

#[test]
fn reload_reapplies_to_bound_objects() {
    let mut m = Manager::new(ProtoConfig::default());
    m.register_schematic_kind(1);
    m.register_schematic_kind(2);
    m.register("alpha".to_string(), vec![Schematic::leaf(1, vec![1])])
        .unwrap();
    let (o, r) = m.spawn(&"alpha".to_string());
    r.unwrap();
    assert!(m.has_capability(o, 1));
    m.reload(&"alpha".to_string(), vec![Schematic::leaf(2, vec![2])])
        .unwrap();
    // The old capability was removed and the new one applied in its place.
    assert!(!m.has_capability(o, 1));
    assert!(m.has_capability(o, 2));
}

#[test]
fn unregister_removes_entry_and_fires_hook() {
    let mut m = Manager::new(ProtoConfig::default());
    let h = m.register("alpha".to_string(), vec![]).unwrap();
    m.take_events();
    let got = m.unregister(&"alpha".to_string()).unwrap();
    assert_eq!(got, h);
    assert!(m.lookup(&"alpha".to_string()).is_none());
    let events = m.take_events();
    assert_eq!(events.len(), 1);
    assert!(matches!(
        &events[0],
        HookEvent::UnregisterPrototype { id, handle } if id == "alpha" && *handle == h
    ));
}

#[test]
fn unregister_unknown_id_fails() {
    let mut m = Manager::new(ProtoConfig::default());
    let r = m.unregister(&"ghost".to_string());
    assert!(matches!(r, Err(ProtoError::UnknownTemplate { ref id }) if id == "ghost"));
}

#[test]
fn unregister_does_not_cascade_into_objects() {
    let mut m = Manager::new(ProtoConfig::default());
    m.register_schematic_kind(1);
    m.register("alpha".to_string(), vec![Schematic::leaf(1, vec![])])
        .unwrap();
    let (o, r) = m.spawn(&"alpha".to_string());
    r.unwrap();
    m.unregister(&"alpha".to_string()).unwrap();
    // The already-applied capability stays in place.
    assert!(m.has_capability(o, 1));
}

#[test]
fn register_fires_register_hook() {
    let mut m = Manager::new(ProtoConfig::default());
    let h = m.register("alpha".to_string(), vec![]).unwrap();
    let events = m.take_events();
    assert_eq!(events.len(), 1);
    assert!(matches!(
        &events[0],
        HookEvent::RegisterPrototype { id, handle } if id == "alpha" && *handle == h
    ));
    // Draining leaves the log empty.
    assert_eq!(m.events().len(), 0);
}
