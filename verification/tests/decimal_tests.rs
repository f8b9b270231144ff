use parakeet::decimal::Decimal;

fn parse(s: &str) -> Option<Decimal> {
    Decimal::parse_str(s)
}

#[test]
fn parse_plain_integer() {
    let d = parse("2").unwrap();
    assert_eq!(d, Decimal { mantissa: 2, scale: 0 });
}

#[test]
fn parse_simple_fraction() {
    let d = parse("1.5").unwrap();
    assert_eq!(d, Decimal { mantissa: 15, scale: 1 });
}

#[test]
fn parse_negative_fraction() {
    let d = parse("-0.05").unwrap();
    assert_eq!(d, Decimal { mantissa: -5, scale: 2 });
}

#[test]
fn parse_normalizes_trailing_zeroes() {
    assert_eq!(parse("1.50").unwrap(), parse("1.5").unwrap());
    assert_eq!(parse("2.0").unwrap(), Decimal { mantissa: 2, scale: 0 });
}

#[test]
fn parse_zero_forms() {
    assert_eq!(parse("0").unwrap(), Decimal { mantissa: 0, scale: 0 });
    assert_eq!(parse("0.000").unwrap(), Decimal { mantissa: 0, scale: 0 });
    assert_eq!(parse("-0.0").unwrap(), Decimal { mantissa: 0, scale: 0 });
}

#[test]
fn parse_exponent_forms() {
    assert_eq!(parse("1e3").unwrap(), Decimal { mantissa: 1000, scale: 0 });
    assert_eq!(parse("2.5e1").unwrap(), Decimal { mantissa: 25, scale: 0 });
    assert_eq!(parse("25E-2").unwrap(), Decimal { mantissa: 25, scale: 2 });
}

#[test]
fn parse_bare_point_forms() {
    assert_eq!(parse(".5").unwrap(), Decimal { mantissa: 5, scale: 1 });
    assert_eq!(parse("5.").unwrap(), Decimal { mantissa: 5, scale: 0 });
    assert_eq!(parse("+3").unwrap(), Decimal { mantissa: 3, scale: 0 });
}

#[test]
fn parse_rejects_malformed() {
    assert!(parse("").is_none());
    assert!(parse("abc").is_none());
    assert!(parse(".").is_none());
    assert!(parse("1.2.3").is_none());
    assert!(parse("1e").is_none());
    assert!(parse("--1").is_none());
    assert!(parse("1 ").is_none());
}

#[test]
fn parse_rejects_out_of_range() {
    // Exponent too large for any representable decimal.
    assert!(parse("1e999999").is_none());
    // Scale beyond eighteen fractional digits.
    assert!(parse("1e-999999").is_none());
    // Mantissa beyond the machine word.
    assert!(parse("99999999999999999999999999").is_none());
}

#[test]
fn parse_large_exponent_of_zero() {
    // A zero mantissa absorbs any in-range exponent; the exponent
    // magnitude limit applies regardless of the mantissa.
    assert_eq!(parse("0e99").unwrap(), Decimal { mantissa: 0, scale: 0 });
    assert_eq!(parse("0e-99").unwrap(), Decimal { mantissa: 0, scale: 0 });
}

#[test]
fn render_canonical_forms() {
    assert_eq!(parse("1.5").unwrap().to_display_string(), "1.5");
    assert_eq!(parse("-0.05").unwrap().to_display_string(), "-0.05");
    assert_eq!(parse("2.0").unwrap().to_display_string(), "2");
    assert_eq!(parse("0").unwrap().to_display_string(), "0");
    assert_eq!(parse("-17").unwrap().to_display_string(), "-17");
    assert_eq!(parse("0.125").unwrap().to_display_string(), "0.125");
}

#[test]
fn render_parse_round_trip() {
    for s in ["1.5", "-0.05", "2", "0", "123.456", "-9999.9"] {
        let d = parse(s).unwrap();
        assert_eq!(parse(&d.to_display_string()).unwrap(), d);
    }
}

#[test]
fn numeric_comparison() {
    let a = parse("1.5").unwrap();
    let b = parse("2").unwrap();
    let c = Decimal { mantissa: 150, scale: 2 }; // 1.50, unnormalized
    assert!(a.num_lt(&b));
    assert!(!b.num_lt(&a));
    assert!(a.num_eq(&c));
    assert!(!a.num_eq(&b));
    let neg = parse("-3.25").unwrap();
    assert!(neg.num_lt(&a));
}
