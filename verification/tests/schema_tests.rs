use parakeet::decimal::Decimal;
use parakeet::manifest::{ManifestValue, ParamEntry, ScalarValue};
use parakeet::schema::{
    emit_parameter, validate_parameter, ParamSchema, SchemaError, Warning,
};

fn entry(name: &str, default: ManifestValue) -> ParamEntry {
    ParamEntry {
        name: name.to_string(),
        default,
        lower: ManifestValue::Null,
        upper: ManifestValue::Null,
        length: ManifestValue::Null,
        allowed: ManifestValue::Null,
    }
}

#[test]
fn bool_parameter_accepted() {
    let p = entry("flag", ManifestValue::Bool(true));
    let (schema, warns) = validate_parameter(&p).unwrap();
    assert!(matches!(schema, ParamSchema::Bool { default_value: true }));
    assert!(warns.is_empty());
}

#[test]
fn bool_with_restriction_rejected() {
    let mut p = entry("flag", ManifestValue::Bool(false));
    p.allowed = ManifestValue::Arr(vec![ScalarValue::Bool(true)]);
    let e = validate_parameter(&p).unwrap_err();
    assert_eq!(e, SchemaError::InvalidFormatting("flag".to_string()));
}

#[test]
fn int_range_accepted() {
    let mut p = entry("width", ManifestValue::Int(7));
    p.lower = ManifestValue::Int(1);
    p.upper = ManifestValue::Int(10);
    let (schema, warns) = validate_parameter(&p).unwrap();
    match schema {
        ParamSchema::IntRange { default_value, lower, upper } => {
            assert_eq!((default_value, lower, upper), (7, 1, 10));
        }
        _ => panic!("wrong variant"),
    }
    assert!(warns.is_empty());
}

#[test]
fn int_range_swapped_bounds_repaired() {
    let mut p = entry("width", ManifestValue::Int(7));
    p.lower = ManifestValue::Int(10);
    p.upper = ManifestValue::Int(5);
    let (schema, warns) = validate_parameter(&p).unwrap();
    match schema {
        ParamSchema::IntRange { lower, upper, .. } => {
            assert_eq!((lower, upper), (5, 10));
        }
        _ => panic!("wrong variant"),
    }
    assert_eq!(
        warns,
        vec![Warning::SwappedBounds { parameter: "width".to_string() }]
    );
}

#[test]
fn int_range_equal_bounds_rejected() {
    let mut p = entry("width", ManifestValue::Int(7));
    p.lower = ManifestValue::Int(5);
    p.upper = ManifestValue::Int(5);
    let e = validate_parameter(&p).unwrap_err();
    assert_eq!(e, SchemaError::InvalidRange("width".to_string()));
}

#[test]
fn int_range_fractional_bound_rejected() {
    let mut p = entry("width", ManifestValue::Int(7));
    p.lower = ManifestValue::Dec(Decimal { mantissa: 15, scale: 1 });
    p.upper = ManifestValue::Int(5);
    let e = validate_parameter(&p).unwrap_err();
    assert_eq!(e, SchemaError::InvalidFormatting("width".to_string()));
}

#[test]
fn int_list_accepted_with_duplicates_dropped() {
    let mut p = entry("teeth", ManifestValue::Int(8));
    p.allowed = ManifestValue::Arr(vec![
        ScalarValue::Int(8),
        ScalarValue::Int(12),
        ScalarValue::Int(8),
    ]);
    let (schema, warns) = validate_parameter(&p).unwrap();
    match schema {
        ParamSchema::IntList { default_value, items } => {
            assert_eq!(default_value, 8);
            assert_eq!(items, vec![8, 12]);
        }
        _ => panic!("wrong variant"),
    }
    assert_eq!(
        warns,
        vec![Warning::DuplicateListValue { parameter: "teeth".to_string() }]
    );
}

#[test]
fn int_list_wrong_element_rejected() {
    let mut p = entry("teeth", ManifestValue::Int(8));
    p.allowed = ManifestValue::Arr(vec![ScalarValue::Int(8), ScalarValue::Str("x".to_string())]);
    let e = validate_parameter(&p).unwrap_err();
    assert_eq!(e, SchemaError::InvalidList("teeth".to_string()));
}

#[test]
fn empty_list_rejected() {
    let mut p = entry("teeth", ManifestValue::Int(8));
    p.allowed = ManifestValue::Arr(vec![]);
    let e = validate_parameter(&p).unwrap_err();
    assert_eq!(e, SchemaError::InvalidRange("teeth".to_string()));
}

#[test]
fn float_range_permissive_integer_bounds() {
    let mut p = entry("height", ManifestValue::Dec(Decimal { mantissa: 25, scale: 1 }));
    p.lower = ManifestValue::Int(1);
    p.upper = ManifestValue::Dec(Decimal { mantissa: 35, scale: 1 });
    let (schema, warns) = validate_parameter(&p).unwrap();
    match schema {
        ParamSchema::FloatRange { lower, upper, .. } => {
            assert_eq!(lower, Decimal { mantissa: 1, scale: 0 });
            assert_eq!(upper, Decimal { mantissa: 35, scale: 1 });
        }
        _ => panic!("wrong variant"),
    }
    assert!(warns.is_empty());
}

#[test]
fn float_range_swapped_bounds_repaired() {
    let mut p = entry("height", ManifestValue::Dec(Decimal { mantissa: 25, scale: 1 }));
    p.lower = ManifestValue::Dec(Decimal { mantissa: 35, scale: 1 });
    p.upper = ManifestValue::Int(1);
    let (schema, warns) = validate_parameter(&p).unwrap();
    match schema {
        ParamSchema::FloatRange { lower, upper, .. } => {
            assert_eq!(lower, Decimal { mantissa: 1, scale: 0 });
            assert_eq!(upper, Decimal { mantissa: 35, scale: 1 });
        }
        _ => panic!("wrong variant"),
    }
    assert_eq!(warns.len(), 1);
}

#[test]
fn float_list_numeric_duplicates_dropped() {
    let mut p = entry("pitch", ManifestValue::Dec(Decimal { mantissa: 5, scale: 1 }));
    p.allowed = ManifestValue::Arr(vec![
        ScalarValue::Dec(Decimal { mantissa: 5, scale: 1 }),
        ScalarValue::Int(2),
        // 2.0 written differently: a numeric duplicate of 2.
        ScalarValue::Dec(Decimal { mantissa: 20, scale: 1 }),
    ]);
    let (schema, warns) = validate_parameter(&p).unwrap();
    match schema {
        ParamSchema::FloatList { items, .. } => {
            assert_eq!(items.len(), 2);
        }
        _ => panic!("wrong variant"),
    }
    assert_eq!(warns.len(), 1);
}

#[test]
fn string_length_accepted() {
    let mut p = entry("label", ManifestValue::Str("hi".to_string()));
    p.length = ManifestValue::Int(12);
    let (schema, warns) = validate_parameter(&p).unwrap();
    match schema {
        ParamSchema::StringLength { default_value, length } => {
            assert_eq!(default_value, "hi");
            assert_eq!(length, 12);
        }
        _ => panic!("wrong variant"),
    }
    assert!(warns.is_empty());
}

#[test]
fn string_length_nonpositive_rejected() {
    let mut p = entry("label", ManifestValue::Str("hi".to_string()));
    p.length = ManifestValue::Int(0);
    let e = validate_parameter(&p).unwrap_err();
    assert_eq!(e, SchemaError::InvalidRange("label".to_string()));
}

#[test]
fn string_list_accepted() {
    let mut p = entry("font", ManifestValue::Str("serif".to_string()));
    p.allowed = ManifestValue::Arr(vec![
        ScalarValue::Str("serif".to_string()),
        ScalarValue::Str("mono".to_string()),
        ScalarValue::Str("serif".to_string()),
    ]);
    let (schema, warns) = validate_parameter(&p).unwrap();
    match schema {
        ParamSchema::StringList { items, .. } => {
            assert_eq!(items, vec!["serif".to_string(), "mono".to_string()]);
        }
        _ => panic!("wrong variant"),
    }
    assert_eq!(warns.len(), 1);
}

#[test]
fn unsupported_default_rejected() {
    let p = entry("thing", ManifestValue::Null);
    let e = validate_parameter(&p).unwrap_err();
    assert_eq!(e, SchemaError::TypeError("thing".to_string()));
}

#[test]
fn emit_then_validate_round_trip() {
    // The validator must accept its own emitted form, unchanged and
    // without warnings, for each variant.
    let schemas = vec![
        ParamSchema::Bool { default_value: true },
        ParamSchema::IntRange { default_value: 3, lower: 1, upper: 9 },
        ParamSchema::FloatRange {
            default_value: Decimal { mantissa: 25, scale: 1 },
            lower: Decimal { mantissa: 1, scale: 0 },
            upper: Decimal { mantissa: 35, scale: 1 },
        },
        ParamSchema::StringLength { default_value: "hi".to_string(), length: 4 },
        ParamSchema::IntList { default_value: 8, items: vec![8, 12, 16] },
        ParamSchema::FloatList {
            default_value: Decimal { mantissa: 5, scale: 1 },
            items: vec![Decimal { mantissa: 5, scale: 1 }, Decimal { mantissa: 2, scale: 0 }],
        },
        ParamSchema::StringList {
            default_value: "serif".to_string(),
            items: vec!["serif".to_string(), "mono".to_string()],
        },
    ];
    for schema in schemas {
        let p = emit_parameter("p".to_string(), &schema);
        let (back, warns) = validate_parameter(&p).unwrap();
        assert!(warns.is_empty());
        let q = emit_parameter("p".to_string(), &back);
        // Emission is injective on validated parameters, so comparing
        // the two emitted entries compares the parameters.
        assert_eq!(format_entry(&p), format_entry(&q));
    }
}

fn format_value(v: &ManifestValue) -> String {
    match v {
        ManifestValue::Null => "null".to_string(),
        ManifestValue::Bool(b) => format!("b:{}", b),
        ManifestValue::Int(i) => format!("i:{}", i),
        ManifestValue::Dec(d) => format!("d:{}:{}", d.mantissa, d.scale),
        ManifestValue::Str(s) => format!("s:{}", s),
        ManifestValue::Arr(items) => {
            let mut out = String::from("[");
            for it in items {
                match it {
                    ScalarValue::Null => out.push_str("null,"),
                    ScalarValue::Bool(b) => out.push_str(&format!("b:{},", b)),
                    ScalarValue::Int(i) => out.push_str(&format!("i:{},", i)),
                    ScalarValue::Dec(d) => out.push_str(&format!("d:{}:{},", d.mantissa, d.scale)),
                    ScalarValue::Str(s) => out.push_str(&format!("s:{},", s)),
                }
            }
            out.push(']');
            out
        }
    }
}

fn format_entry(p: &ParamEntry) -> String {
    format!(
        "{}|{}|{}|{}|{}|{}",
        p.name,
        format_value(&p.default),
        format_value(&p.lower),
        format_value(&p.upper),
        format_value(&p.length),
        format_value(&p.allowed)
    )
}
