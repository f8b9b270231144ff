use parakeet::api::{
    get_bool_parameters, get_display_models, get_int_list_items, get_int_list_parameters,
    get_int_range_parameters, get_model, get_parameters, get_parts, get_string_list_items,
    Parameter,
};
use parakeet::manifest::{ManifestValue, ModelManifest, ParamEntry, PartEntry, ScalarValue};
use parakeet::indexer::index;
use parakeet::store::Store;

fn indexed_store() -> Store {
    let mut store = Store::new();
    let manifests = vec![ModelManifest {
        name: "gear".to_string(),
        date: "2024-01-01".to_string(),
        description: "a gear".to_string(),
        author: "someone".to_string(),
        parts: vec![PartEntry {
            name: "spur".to_string(),
            parameters: vec![
                ParamEntry {
                    name: "allowed_teeth".to_string(),
                    default: ManifestValue::Int(8),
                    lower: ManifestValue::Null,
                    upper: ManifestValue::Null,
                    length: ManifestValue::Null,
                    allowed: ManifestValue::Arr(vec![
                        ScalarValue::Int(8),
                        ScalarValue::Int(12),
                    ]),
                },
                ParamEntry {
                    name: "hollow".to_string(),
                    default: ManifestValue::Bool(true),
                    lower: ManifestValue::Null,
                    upper: ManifestValue::Null,
                    length: ManifestValue::Null,
                    allowed: ManifestValue::Null,
                },
                ParamEntry {
                    name: "width".to_string(),
                    default: ManifestValue::Int(5),
                    lower: ManifestValue::Int(1),
                    upper: ManifestValue::Int(9),
                    length: ManifestValue::Null,
                    allowed: ManifestValue::Null,
                },
            ],
        }],
    }];
    index(&mut store, &manifests).unwrap();
    store
}

#[test]
fn display_models_lists_every_model() {
    let store = indexed_store();
    let models = get_display_models(&store);
    assert_eq!(models.len(), 1);
    assert_eq!(models[0].model_id, 0);
    assert_eq!(models[0].name, "gear");
    assert_eq!(models[0].creation_date, "2024-01-01");
    assert_eq!(models[0].image_path, "images/gear.jpg");
}

#[test]
fn get_model_returns_parts_and_parameters() {
    let store = indexed_store();
    let model = get_model(&store, 0).unwrap();
    assert_eq!(model.model_id, 0);
    assert_eq!(model.scad_path, "scad/gear.scad");
    assert_eq!(model.parts.len(), 1);
    assert_eq!(model.parts[0].name, "spur");
    assert_eq!(model.parts[0].parameters.len(), 3);
}

#[test]
fn get_model_missing_id_is_none() {
    let store = indexed_store();
    assert!(get_model(&store, 7).is_none());
}

#[test]
fn parameters_are_grouped_ranges_before_bools_before_lists() {
    let store = indexed_store();
    let params = get_parameters(&store, 0);
    assert_eq!(params.len(), 3);
    match &params[0] {
        Parameter::IntRange(p) => {
            assert_eq!(p.name, "width");
            assert_eq!((p.lower, p.upper), (1, 9));
        }
        _ => panic!("expected the range first"),
    }
    match &params[1] {
        Parameter::Bool(p) => {
            assert_eq!(p.name, "hollow");
            assert!(p.default_value);
        }
        _ => panic!("expected the boolean second"),
    }
    match &params[2] {
        Parameter::IntList(p) => {
            assert_eq!(p.name, "allowed_teeth");
            assert_eq!(p.items, vec![8, 12]);
        }
        _ => panic!("expected the list last"),
    }
}

#[test]
fn parts_of_unknown_model_are_empty() {
    let store = indexed_store();
    assert!(get_parts(&store, 5).is_empty());
}

#[test]
fn per_kind_getters_filter_by_part_and_kind() {
    let store = indexed_store();
    assert_eq!(get_int_range_parameters(&store, 0).len(), 1);
    assert_eq!(get_bool_parameters(&store, 0).len(), 1);
    assert_eq!(get_int_list_parameters(&store, 0).len(), 1);
    assert!(get_int_range_parameters(&store, 3).is_empty());
}

#[test]
fn list_item_getters_return_the_stored_values() {
    let store = indexed_store();
    // The allow-list parameter was inserted first, so it holds
    // identifier zero.
    assert_eq!(get_int_list_items(&store, 0), vec![8, 12]);
    assert!(get_int_list_items(&store, 1).is_empty());
    assert!(get_string_list_items(&store, 0).is_empty());
}
