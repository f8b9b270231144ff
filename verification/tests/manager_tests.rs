use parakeet::decimal::Decimal;
use parakeet::manager::{extract_bounds, ParamType, STLInstance};

fn instance(model_id: i64, part_id: i64, parameters: Vec<(String, ParamType)>) -> STLInstance {
    STLInstance { model_id, part_id, parameters, command_string: String::new() }
}

#[test]
fn identifier_renders_all_value_types() {
    let inst = instance(
        0,
        0,
        vec![
            ("teeth".to_string(), ParamType::IntParam(3)),
            ("hollow".to_string(), ParamType::BoolParam(true)),
            ("pitch".to_string(), ParamType::FloatParam(Decimal { mantissa: 15, scale: 1 })),
            ("label".to_string(), ParamType::StringParam("top".to_string())),
        ],
    );
    assert_eq!(inst.get_identifier(), "stls/0-0_3-true-1.5-top.stl");
}

#[test]
fn identifier_uses_model_and_part_ids() {
    let inst = instance(12, -3, vec![("x".to_string(), ParamType::IntParam(-7))]);
    assert_eq!(inst.get_identifier(), "stls/12--3_-7.stl");
}

#[test]
fn identifier_depends_only_on_ordered_values() {
    // Two assignments with different names but the same ordered values
    // derive the same key.
    let a = instance(
        0,
        0,
        vec![
            ("x".to_string(), ParamType::IntParam(1)),
            ("y".to_string(), ParamType::IntParam(2)),
        ],
    );
    let b = instance(
        0,
        0,
        vec![
            ("first".to_string(), ParamType::IntParam(1)),
            ("second".to_string(), ParamType::IntParam(2)),
        ],
    );
    assert_eq!(a.get_identifier(), b.get_identifier());
    // Reordering the values changes the key.
    let c = instance(
        0,
        0,
        vec![
            ("x".to_string(), ParamType::IntParam(2)),
            ("y".to_string(), ParamType::IntParam(1)),
        ],
    );
    assert_ne!(a.get_identifier(), c.get_identifier());
}

#[test]
fn command_string_joins_assignments() {
    let mut inst = instance(
        0,
        1,
        vec![
            ("teeth".to_string(), ParamType::IntParam(8)),
            ("pitch".to_string(), ParamType::FloatParam(Decimal { mantissa: 5, scale: 1 })),
        ],
    );
    inst.gen_command_string("gear".to_string(), "scad/gears.scad".to_string());
    assert_eq!(inst.command_string, "use <scad/gears.scad>;gear(teeth=8, pitch=0.5);");
}

#[test]
fn command_string_single_parameter_has_no_separator() {
    let mut inst = instance(0, 0, vec![("n".to_string(), ParamType::IntParam(4))]);
    inst.gen_command_string("wheel".to_string(), "scad/w.scad".to_string());
    assert_eq!(inst.command_string, "use <scad/w.scad>;wheel(n=4);");
}

#[test]
fn bounds_of_simple_solid() {
    let text = "solid part\n facet normal 0 0 1\n  outer loop\n   vertex 1.5 2 0\n   vertex -0.5 1 3\n   vertex 0 0 0\n  endloop\n endfacet\nendsolid part\n";
    let b = extract_bounds(text).unwrap();
    assert_eq!(b.min_x, Decimal { mantissa: -5, scale: 1 });
    assert_eq!(b.max_x, Decimal { mantissa: 15, scale: 1 });
    assert_eq!(b.min_y, Decimal { mantissa: 0, scale: 0 });
    assert_eq!(b.max_y, Decimal { mantissa: 2, scale: 0 });
    assert_eq!(b.min_z, Decimal { mantissa: 0, scale: 0 });
    assert_eq!(b.max_z, Decimal { mantissa: 3, scale: 0 });
}

#[test]
fn bounds_are_pinned_to_the_origin() {
    // A mesh strictly positive on every axis still reports minima of
    // zero: the box is pinned to include the origin.
    let text = "vertex 1 2 3\nvertex 4 5 6\n";
    let b = extract_bounds(text).unwrap();
    assert_eq!(b.min_x, Decimal { mantissa: 0, scale: 0 });
    assert_eq!(b.max_x, Decimal { mantissa: 4, scale: 0 });
}

#[test]
fn bounds_dimensions_are_nonnegative() {
    let text = "vertex -2.5 -1 7\nvertex 3.25 0.5 -4e1\n";
    let b = extract_bounds(text).unwrap();
    for (mn, mx) in [
        (&b.min_x, &b.max_x),
        (&b.min_y, &b.max_y),
        (&b.min_z, &b.max_z),
    ] {
        let lo: f64 = mn.to_display_string().parse().unwrap();
        let hi: f64 = mx.to_display_string().parse().unwrap();
        assert!(hi - lo >= 0.0);
    }
}

#[test]
fn bounds_ignore_non_vertex_lines() {
    let text = "header\nnot a vertex 9 9 9\n\n";
    let b = extract_bounds(text).unwrap();
    assert_eq!(b.max_x, Decimal { mantissa: 0, scale: 0 });
}

#[test]
fn bounds_reject_malformed_vertex_lines() {
    assert!(extract_bounds("vertex 1 2\n").is_none());
    assert!(extract_bounds("vertex a b c\n").is_none());
}
