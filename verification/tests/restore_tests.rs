use parakeet::restore::{restore, RestoreEvent};
use parakeet::store::{create_instance, db_reset, db_save_instances, Store};

fn snapshot_of_three() -> (Store, Vec<parakeet::store::Instance>) {
    let mut store = Store::new();
    create_instance(&mut store, "stls/0-0_7.stl".to_string(), "cmd7".to_string(), 0);
    create_instance(&mut store, "stls/0-1_8.stl".to_string(), "cmd8".to_string(), 1);
    create_instance(&mut store, "stls/1-0_9.stl".to_string(), "cmd9".to_string(), 2);
    let snap = db_save_instances(&store);
    (store, snap)
}

#[test]
fn existing_file_is_reinserted_verbatim() {
    let (mut store, snap) = snapshot_of_three();
    db_reset(&mut store);
    // Only the first row's file survives on disk; no build runs for it.
    let events = vec![
        RestoreEvent { file_exists: true, build_ok: false },
        RestoreEvent { file_exists: false, build_ok: false },
        RestoreEvent { file_exists: false, build_ok: false },
    ];
    restore(&mut store, &snap, &events);
    assert_eq!(store.instances.len(), 1);
    assert_eq!(store.instances[0].path, "stls/0-0_7.stl");
    assert_eq!(store.instances[0].command_string, "cmd7");
    assert_eq!(store.instances[0].usage, snap[0].usage);
    assert_eq!(store.instances[0].age, snap[0].age);
}

#[test]
fn missing_file_rebuilt_successfully_is_reinserted() {
    let (mut store, snap) = snapshot_of_three();
    db_reset(&mut store);
    let events = vec![
        RestoreEvent { file_exists: false, build_ok: true },
        RestoreEvent { file_exists: false, build_ok: false },
        RestoreEvent { file_exists: false, build_ok: true },
    ];
    restore(&mut store, &snap, &events);
    assert_eq!(store.instances.len(), 2);
    assert_eq!(store.instances[0].path, "stls/0-0_7.stl");
    assert_eq!(store.instances[1].path, "stls/1-0_9.stl");
}

#[test]
fn unchanged_tree_restores_the_snapshot_exactly() {
    let (mut store, snap) = snapshot_of_three();
    db_reset(&mut store);
    let events = vec![
        RestoreEvent { file_exists: true, build_ok: false },
        RestoreEvent { file_exists: true, build_ok: false },
        RestoreEvent { file_exists: false, build_ok: true },
    ];
    restore(&mut store, &snap, &events);
    assert_eq!(store.instances.len(), snap.len());
    for (a, b) in store.instances.iter().zip(snap.iter()) {
        assert_eq!(a.path, b.path);
        assert_eq!(a.command_string, b.command_string);
        assert_eq!(a.usage, b.usage);
        assert_eq!(a.age, b.age);
        assert_eq!(a.part_id, b.part_id);
    }
}

#[test]
fn failed_rebuilds_are_dropped_silently() {
    let (mut store, snap) = snapshot_of_three();
    db_reset(&mut store);
    let events = vec![
        RestoreEvent { file_exists: false, build_ok: false },
        RestoreEvent { file_exists: false, build_ok: false },
        RestoreEvent { file_exists: false, build_ok: false },
    ];
    restore(&mut store, &snap, &events);
    assert!(store.instances.is_empty());
}
