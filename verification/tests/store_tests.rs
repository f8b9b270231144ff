use parakeet::store::{
    create_instance, db_add_model, db_add_part, db_reset, db_save_instances,
    find_least_valuable_instance, increment_instance_usage, remove_instance, Store,
};

fn seeded_store() -> Store {
    let mut store = Store::new();
    create_instance(&mut store, "stls/0-0_1.stl".to_string(), "cmd1".to_string(), 0);
    create_instance(&mut store, "stls/0-0_2.stl".to_string(), "cmd2".to_string(), 0);
    create_instance(&mut store, "stls/0-0_3.stl".to_string(), "cmd3".to_string(), 0);
    store
}

#[test]
fn create_assigns_monotonic_ages_and_zero_usage() {
    let store = seeded_store();
    assert_eq!(store.instances.len(), 3);
    assert_eq!(store.next_age, 3);
    for (i, inst) in store.instances.iter().enumerate() {
        assert_eq!(inst.age, i as i64);
        assert_eq!(inst.usage, 0);
    }
}

#[test]
fn increment_bumps_only_the_named_instance() {
    let mut store = seeded_store();
    let found = increment_instance_usage(&mut store, &"stls/0-0_2.stl".to_string());
    assert!(found);
    assert_eq!(store.instances[0].usage, 0);
    assert_eq!(store.instances[1].usage, 1);
    assert_eq!(store.instances[2].usage, 0);
    let missing = increment_instance_usage(&mut store, &"stls/9-9_9.stl".to_string());
    assert!(!missing);
}

#[test]
fn remove_deletes_exactly_the_named_instance() {
    let mut store = seeded_store();
    remove_instance(&mut store, &"stls/0-0_2.stl".to_string());
    assert_eq!(store.instances.len(), 2);
    assert_eq!(store.instances[0].path, "stls/0-0_1.stl");
    assert_eq!(store.instances[1].path, "stls/0-0_3.stl");
}

#[test]
fn least_valuable_prefers_low_usage_then_low_age() {
    let mut store = seeded_store();
    // Bump the first two; the third (usage 0) becomes the victim.
    increment_instance_usage(&mut store, &"stls/0-0_1.stl".to_string());
    increment_instance_usage(&mut store, &"stls/0-0_2.stl".to_string());
    let v = find_least_valuable_instance(&store).unwrap();
    assert_eq!(v.path, "stls/0-0_3.stl");
    // Among equal usages, the oldest age wins.
    increment_instance_usage(&mut store, &"stls/0-0_3.stl".to_string());
    let v2 = find_least_valuable_instance(&store).unwrap();
    assert_eq!(v2.path, "stls/0-0_1.stl");
}

#[test]
fn least_valuable_on_empty_store_is_none() {
    let store = Store::new();
    assert!(find_least_valuable_instance(&store).is_none());
}

#[test]
fn snapshot_copies_all_rows() {
    let store = seeded_store();
    let snap = db_save_instances(&store);
    assert_eq!(snap.len(), 3);
    for (a, b) in snap.iter().zip(store.instances.iter()) {
        assert_eq!(a.path, b.path);
        assert_eq!(a.command_string, b.command_string);
        assert_eq!(a.usage, b.usage);
        assert_eq!(a.age, b.age);
        assert_eq!(a.part_id, b.part_id);
    }
}

#[test]
fn reset_truncates_tables_but_keeps_the_age_counter() {
    let mut store = seeded_store();
    db_add_model(
        &mut store,
        0,
        "gear".to_string(),
        "2024-01-01".to_string(),
        "a gear".to_string(),
        "me".to_string(),
        "images/gear.jpg".to_string(),
        "scad/gear.scad".to_string(),
    );
    db_add_part(&mut store, 0, "spur".to_string(), 0);
    db_reset(&mut store);
    assert!(store.models.is_empty());
    assert!(store.parts.is_empty());
    assert!(store.parameters.is_empty());
    assert!(store.instances.is_empty());
    assert_eq!(store.next_age, 3);
}
