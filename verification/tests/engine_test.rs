use cu::catalog::standard_catalog;
use cu::convert::convert_line;
use cu::format::format_number;
use cu::rational::Rational;
use cu::resolve::find_unit;

fn run(input: &str) -> Vec<String> {
    let cat = standard_catalog();
    let (lines, usage) = convert_line(&cat, input);
    assert!(!usage, "unexpected usage request for {:?}", input);
    lines
}

// Re-parsing the canonical source display reproduces the same result.
#[test]
fn test_display_reparse_idempotent() {
    let first = run("10in 5ft = m");
    assert_eq!(first, vec!["[LENGTH] 5 ft 10 in = 1.78 m"]);
    // the rendered display, fed back in, converts to the same value
    let again = run("5 ft 10 in = m");
    assert_eq!(first, again);
    let fractions = run("1/2mile 1/4yd 1/8ft = m");
    let again = run("0.5 mi 0.25 yd 0.125 ft = m");
    assert_eq!(fractions, again);
}

// Token order never changes the outcome, including across variants.
#[test]
fn test_token_order_commutative() {
    assert_eq!(run("1yd 2ft 4.7in = cm"), run("4.7in 2ft 1yd = cm"));
    assert_eq!(run("1gal 2qt 1pt = l"), run("1pt 2qt 1gal = l"));
    assert_eq!(run("1kg 500gm = lb"), run("500gm 1kg = lb"));
}

// Exact abbreviation matches beat case-insensitive and alias matches even
// when they live in a later family.
#[test]
fn test_exact_match_precedence() {
    let cat = standard_catalog();
    // "c" is the Cup abbreviation (VOLUME), although Celsius and Century
    // both carry a "c" alias in earlier-scanned families.
    let (f, u) = find_unit(&cat, "c", None).unwrap();
    assert_eq!(cat.families[f].name, "VOLUME");
    assert_eq!(cat.families[f].units[u].abbr, "c");
    // "Pa" is the Pascal abbreviation; "pa" only matches it case-insensitively.
    let (f, u) = find_unit(&cat, "Pa", None).unwrap();
    assert_eq!(cat.families[f].name, "PRESSURE");
    let (f2, u2) = find_unit(&cat, "pa", None).unwrap();
    assert_eq!((f, u), (f2, u2));
}

// A formula target refuses compound sources, and refuses a pair it has no
// transform for.
#[test]
fn test_formula_errors() {
    assert_eq!(
        run("1C 2C = K"),
        vec!["[ Formula based conversions cannot be used with compound/mixed units ]"]
    );
    assert_eq!(run("0K = K"), vec!["[ Formula error: K ]"]);
}

// Precision directives out of range warn and substitute, but never fail.
#[test]
fn test_precision_warnings() {
    assert_eq!(
        run("5ft = m:99"),
        vec![
            "Precision too high: 99 (using the max allowed precision of 14 instead)",
            "[LENGTH] 5 ft = 1.524 m",
        ]
    );
    assert_eq!(
        run("5ft = m:-1"),
        vec![
            "Can't use negative precision: -1 (using the default precision of 2 instead)",
            "[LENGTH] 5 ft = 1.52 m",
        ]
    );
    assert_eq!(
        run("5ft = m:x"),
        vec![
            "Not a valid precision: x (using the default precision of 2 instead)",
            "[LENGTH] 5 ft = 1.52 m",
        ]
    );
    assert_eq!(run("5ft = m:*"), vec!["[LENGTH] 5 ft = 1.524 m"]);
}

// Formatting the same value at a finer precision keeps every digit the
// coarser one kept.
#[test]
fn test_precision_monotone_scenario() {
    let v = Rational::new(1778, 1000).unwrap();
    assert_eq!(format_number(&v, Some(0)).unwrap(), "2");
    assert_eq!(format_number(&v, Some(2)).unwrap(), "1.78");
    assert_eq!(format_number(&v, Some(5)).unwrap(), "1.778");
}

// An out-of-range (negative) precision request substitutes the default of
// two places rather than silently rounding at another scale.
#[test]
fn test_negative_precision_uses_default() {
    let v = Rational::new(1778, 1000).unwrap();
    assert_eq!(format_number(&v, Some(-1)).unwrap(), "1.78");
    assert_eq!(format_number(&v, Some(i32::MIN)).unwrap(), "1.78");
}

// Inputs the tokenizer cannot read ask for usage instead of converting.
#[test]
fn test_usage_requests() {
    let cat = standard_catalog();
    let (lines, usage) = convert_line(&cat, "no separator here");
    assert!(usage);
    assert!(lines.is_empty());
    let (lines, usage) = convert_line(&cat, "1/0m = ft");
    assert!(usage);
    assert!(lines.is_empty());
    let (lines, usage) = convert_line(&cat, " = ft");
    assert!(usage);
    assert!(lines.is_empty());
}

// An intermediate value leaving the 128-bit range is reported, not wrapped.
#[test]
fn test_value_out_of_range() {
    assert_eq!(
        run("99999999999999999999999999999999999999eV = J:14"),
        vec!["[ Value out of range ]"]
    );
}

// A formula round trip lands back on the starting value.
#[test]
fn test_formula_round_trip_scenario() {
    assert_eq!(run("212\u{b0}F = \u{b0}C"), vec!["[TEMPERATURE] 212 \u{b0}F = 100 \u{b0}C"]);
    assert_eq!(run("100\u{b0}C = \u{b0}F"), vec!["[TEMPERATURE] 100 \u{b0}C = 212 \u{b0}F"]);
    assert_eq!(run("-40\u{b0}C = \u{b0}F"), vec!["[TEMPERATURE] -40 \u{b0}C = -40 \u{b0}F"]);
}

// Gallon to quart fans out to all four regional combinations (2 x 2).
#[test]
fn test_variant_fan_out_cardinality() {
    assert_eq!(run("1gal = qt").len(), 4);
    assert_eq!(run("1gal = l").len(), 2);
    assert_eq!(run("1l = qt").len(), 2);
    assert_eq!(run("1l = ml").len(), 1);
    assert_eq!(run("1t = t").len(), 9);
}
