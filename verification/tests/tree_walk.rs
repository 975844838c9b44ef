use proto_engine::config::CycleResponse;
use proto_engine::engine::{apply_tree, remove_tree};
use proto_engine::error::ProtoError;
use proto_engine::hooks::HookEvent;
use proto_engine::store::TemplateStore;
use proto_engine::template::Schematic;
use proto_engine::tree::build_tree;
use proto_engine::world::ProtoWorld;

#[test]
fn build_tree_resolves_nested_structure() {
    let mut store = TemplateStore::new();
    store
        .insert("leaf".to_string(), 1, vec![Schematic::leaf(2, vec![])])
        .unwrap();
    store
        .insert(
            "root".to_string(),
            2,
            vec![Schematic::depends_on(1, vec![], "leaf".to_string(), false)],
        )
        .unwrap();
    let tree = build_tree(&store, &"root".to_string(), CycleResponse::Cancel).unwrap();
    assert_eq!(tree.id, "root");
    assert_eq!(tree.steps.len(), 1);
    assert_eq!(tree.steps[0].kind, 1);
    let child = tree.steps[0].child.as_ref().unwrap();
    assert_eq!(child.id, "leaf");
    assert_eq!(child.steps.len(), 1);
    assert!(child.steps[0].child.is_none());
}

#[test]
fn build_tree_unknown_root_fails() {
    let store = TemplateStore::new();
    let r = build_tree(&store, &"ghost".to_string(), CycleResponse::Cancel);
    assert!(matches!(r, Err(ProtoError::UnknownTemplate { ref id }) if id == "ghost"));
}

#[test]
fn walking_a_tree_drives_world_and_log() {
    let mut store = TemplateStore::new();
    store
        .insert(
            "pair".to_string(),
            1,
            vec![Schematic::leaf(4, vec![1]), Schematic::leaf(5, vec![2])],
        )
        .unwrap();
    let tree = build_tree(&store, &"pair".to_string(), CycleResponse::Cancel).unwrap();
    let mut world = ProtoWorld::new();
    let o = world.spawn();
    let table = vec![4u64, 5u64];
    let mut events: Vec<HookEvent> = Vec::new();
    let record = apply_tree(&tree, o, &mut world, &table, &mut events).unwrap();
    assert_eq!(record.steps.len(), 2);
    assert!(world.has_capability(o, 4));
    assert!(world.has_capability(o, 5));
    assert_eq!(world.capability_payload(o, 4).unwrap(), &vec![1u8]);
    assert_eq!(events.len(), 6);
    remove_tree(&tree, o, &mut world, &table, &mut events, &record).unwrap();
    assert!(!world.has_capability(o, 4));
    assert!(!world.has_capability(o, 5));
    assert_eq!(events.len(), 12);
    assert!(matches!(&events[6], HookEvent::BeforeRemovePrototype { id, .. } if id == "pair"));
    assert!(matches!(&events[7], HookEvent::BeforeRemoveSchematic { kind: 5, .. }));
}

#[test]
fn store_lookup_by_handle_finds_entry() {
    let mut store = TemplateStore::new();
    store.insert("alpha".to_string(), 41, vec![]).unwrap();
    store.insert("beta".to_string(), 42, vec![]).unwrap();
    assert_eq!(store.len(), 2);
    assert_eq!(store.lookup_by_handle(42).unwrap().id, "beta");
    assert!(store.lookup_by_handle(43).is_none());
    let removed = store.remove(&"beta".to_string()).unwrap();
    assert_eq!(removed.handle, 42);
    assert!(store.lookup_by_handle(42).is_none());
    assert_eq!(store.len(), 1);
}
