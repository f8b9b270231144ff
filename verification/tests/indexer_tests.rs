use parakeet::indexer::{classify_model_dir, index};
use parakeet::manifest::{ManifestValue, ModelManifest, ParamEntry, PartEntry};
use parakeet::schema::{ParamSchema, SchemaError};
use parakeet::store::Store;

fn param(name: &str, default: ManifestValue) -> ParamEntry {
    ParamEntry {
        name: name.to_string(),
        default,
        lower: ManifestValue::Null,
        upper: ManifestValue::Null,
        length: ManifestValue::Null,
        allowed: ManifestValue::Null,
    }
}

fn manifest(name: &str, parts: Vec<PartEntry>) -> ModelManifest {
    ModelManifest {
        name: name.to_string(),
        date: "2024-01-01".to_string(),
        description: "a model".to_string(),
        author: "someone".to_string(),
        parts,
    }
}

#[test]
fn classify_picks_by_extension() {
    let entries = vec![
        "models/gear/preview.jpg".to_string(),
        "models/gear/gear.scad".to_string(),
        "models/gear/info.json".to_string(),
        "models/gear/notes.txt".to_string(),
    ];
    let (image, scad, info) = classify_model_dir(&entries);
    assert_eq!(image, "models/gear/preview.jpg");
    assert_eq!(scad, "models/gear/gear.scad");
    assert_eq!(info, "models/gear/info.json");
}

#[test]
fn classify_last_file_wins_and_missing_is_empty() {
    let entries = vec![
        "a.jpg".to_string(),
        "b.jpg".to_string(),
        "c.scad".to_string(),
    ];
    let (image, scad, info) = classify_model_dir(&entries);
    assert_eq!(image, "b.jpg");
    assert_eq!(scad, "c.scad");
    assert_eq!(info, "");
}

#[test]
fn index_inserts_models_parts_and_parameters_with_monotonic_ids() {
    let mut store = Store::new();
    let manifests = vec![
        manifest(
            "gear",
            vec![
                PartEntry {
                    name: "spur".to_string(),
                    parameters: vec![
                        param("teeth", ManifestValue::Int(8)),
                        param("hollow", ManifestValue::Bool(false)),
                    ],
                },
                PartEntry { name: "ring".to_string(), parameters: vec![] },
            ],
        ),
        manifest(
            "box",
            vec![PartEntry {
                name: "lid".to_string(),
                parameters: vec![param("label", ManifestValue::Str("top".to_string()))],
            }],
        ),
    ];
    // An integer default with no restriction keys is rejected, so give
    // the integer parameter a range.
    let mut manifests = manifests;
    manifests[0].parts[0].parameters[0].lower = ManifestValue::Int(4);
    manifests[0].parts[0].parameters[0].upper = ManifestValue::Int(64);
    manifests[1].parts[0].parameters[0].length = ManifestValue::Int(16);

    let warnings = index(&mut store, &manifests).unwrap();
    assert!(warnings.is_empty());

    assert_eq!(store.models.len(), 2);
    assert_eq!(store.models[0].model_id, 0);
    assert_eq!(store.models[0].name, "gear");
    assert_eq!(store.models[0].image_path, "images/gear.jpg");
    assert_eq!(store.models[0].scad_path, "scad/gear.scad");
    assert_eq!(store.models[1].model_id, 1);
    assert_eq!(store.models[1].scad_path, "scad/box.scad");

    assert_eq!(store.parts.len(), 3);
    let part_ids: Vec<i64> = store.parts.iter().map(|p| p.part_id).collect();
    assert_eq!(part_ids, vec![0, 1, 2]);
    assert_eq!(store.parts[2].name, "lid");
    assert_eq!(store.parts[2].model_id, 1);

    assert_eq!(store.parameters.len(), 3);
    let parameter_ids: Vec<i64> = store.parameters.iter().map(|p| p.parameter_id).collect();
    assert_eq!(parameter_ids, vec![0, 1, 2]);
    assert!(matches!(
        store.parameters[0].schema,
        ParamSchema::IntRange { default_value: 8, lower: 4, upper: 64 }
    ));
    assert_eq!(store.parameters[2].part_id, 2);
}

#[test]
fn index_aborts_on_the_first_invalid_parameter() {
    let mut store = Store::new();
    let manifests = vec![manifest(
        "gear",
        vec![PartEntry {
            name: "spur".to_string(),
            parameters: vec![param("teeth", ManifestValue::Int(8))],
        }],
    )];
    let e = index(&mut store, &manifests).unwrap_err();
    assert_eq!(e, SchemaError::InvalidFormatting("teeth".to_string()));
}

#[test]
fn index_resets_previous_contents() {
    let mut store = Store::new();
    let first = vec![manifest("gear", vec![])];
    index(&mut store, &first).unwrap();
    assert_eq!(store.models.len(), 1);
    let second = vec![manifest("box", vec![]), manifest("cup", vec![])];
    index(&mut store, &second).unwrap();
    assert_eq!(store.models.len(), 2);
    assert_eq!(store.models[0].name, "box");
}

#[test]
fn index_reports_warnings_from_repairs() {
    let mut store = Store::new();
    let mut m = manifest(
        "gear",
        vec![PartEntry {
            name: "spur".to_string(),
            parameters: vec![param("teeth", ManifestValue::Int(8))],
        }],
    );
    m.parts[0].parameters[0].lower = ManifestValue::Int(10);
    m.parts[0].parameters[0].upper = ManifestValue::Int(5);
    let warnings = index(&mut store, &vec![m]).unwrap();
    assert_eq!(warnings.len(), 1);
    assert!(matches!(
        store.parameters[0].schema,
        ParamSchema::IntRange { lower: 5, upper: 10, .. }
    ));
}
