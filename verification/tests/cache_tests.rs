use parakeet::cache::{apply_generate, GenResult};
use parakeet::store::Store;

fn generate(store: &mut Store, key: &str, limit: i64, build_ok: bool) -> GenResult {
    apply_generate(
        store,
        key.to_string(),
        format!("use <scad/m.scad>;part(x={});", key.len()),
        0,
        limit,
        build_ok,
    )
}

#[test]
fn capacity_two_keeps_two_files_and_evicts_the_oldest() {
    let mut store = Store::new();
    // Three distinct artifacts through a cache bounded at two.
    let r1 = generate(&mut store, "stls/0-0_1.stl", 2, true);
    assert!(matches!(r1, GenResult::Admitted));
    let r2 = generate(&mut store, "stls/0-0_2.stl", 2, true);
    assert!(matches!(r2, GenResult::Admitted));
    let r3 = generate(&mut store, "stls/0-0_3.stl", 2, true);
    match r3 {
        GenResult::EvictedAdmitted { victim } => {
            // Lowest usage, oldest age: the first key.
            assert_eq!(victim.path, "stls/0-0_1.stl");
        }
        _ => panic!("expected an eviction"),
    }
    assert_eq!(store.instances.len(), 2);
    let paths: Vec<&str> = store.instances.iter().map(|i| i.path.as_str()).collect();
    assert!(paths.contains(&"stls/0-0_2.stl"));
    assert!(paths.contains(&"stls/0-0_3.stl"));
    assert!(!paths.contains(&"stls/0-0_1.stl"));
}

#[test]
fn hit_increments_usage_without_building() {
    let mut store = Store::new();
    generate(&mut store, "stls/0-0_2.stl", 2, true);
    // A repeated request is a hit even when no build outcome is
    // supplied: the reported build flag is irrelevant on the hit path.
    let r = generate(&mut store, "stls/0-0_2.stl", 2, false);
    assert!(matches!(r, GenResult::Hit));
    assert_eq!(store.instances.len(), 1);
    assert_eq!(store.instances[0].usage, 1);
}

#[test]
fn hit_usage_strictly_increases_across_hits() {
    let mut store = Store::new();
    generate(&mut store, "stls/0-0_7.stl", 4, true);
    for expected in 1..=3i64 {
        generate(&mut store, "stls/0-0_7.stl", 4, true);
        assert_eq!(store.instances[0].usage, expected);
    }
}

#[test]
fn failed_build_below_capacity_records_nothing() {
    let mut store = Store::new();
    let r = generate(&mut store, "stls/0-0_1.stl", 2, false);
    assert!(matches!(r, GenResult::Failed { victim: None }));
    assert!(store.instances.is_empty());
}

#[test]
fn failed_build_at_capacity_still_evicts_the_victim() {
    let mut store = Store::new();
    generate(&mut store, "stls/0-0_1.stl", 1, true);
    let r = generate(&mut store, "stls/0-0_2.stl", 1, false);
    match r {
        GenResult::Failed { victim: Some(v) } => {
            assert_eq!(v.path, "stls/0-0_1.stl");
        }
        _ => panic!("expected a failed build with an evicted victim"),
    }
    assert!(store.instances.is_empty());
}

#[test]
fn capacity_never_exceeded_over_many_requests() {
    let mut store = Store::new();
    for round in 0..30 {
        let key = format!("stls/0-0_{}.stl", round % 7);
        apply_generate(&mut store, key, "cmd".to_string(), 0, 3, true);
        assert!(store.instances.len() <= 3);
    }
}

#[test]
fn eviction_admits_the_new_key_and_drops_the_victim() {
    let mut store = Store::new();
    generate(&mut store, "stls/0-0_a.stl", 2, true);
    generate(&mut store, "stls/0-0_b.stl", 2, true);
    // Make the second entry clearly least valuable by using the first.
    generate(&mut store, "stls/0-0_a.stl", 2, true);
    let r = generate(&mut store, "stls/0-0_c.stl", 2, true);
    match r {
        GenResult::EvictedAdmitted { victim } => {
            assert_eq!(victim.path, "stls/0-0_b.stl");
        }
        _ => panic!("expected an eviction"),
    }
    let paths: Vec<&str> = store.instances.iter().map(|i| i.path.as_str()).collect();
    assert!(paths.contains(&"stls/0-0_c.stl"));
    assert!(!paths.contains(&"stls/0-0_b.stl"));
}
