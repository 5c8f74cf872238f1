use cu::catalog::standard_catalog;
use cu::convert::convert_line;

fn run(input: &str) -> Vec<String> {
    let cat = standard_catalog();
    let (lines, usage) = convert_line(&cat, input);
    assert!(!usage, "unexpected usage request for {:?}", input);
    lines
}

#[test]
fn test_complex_length_units() {
    // Multiple length units in descending order
    assert_eq!(
        run("1mile 2yd 1ft 300in = km"),
        vec!["[LENGTH] 1 mi 2 yd 1 ft 300 in = 1.62 km"]
    );
    // Multiple length units in ascending order
    assert_eq!(
        run("300in 1ft 2yd 1mile = km"),
        vec!["[LENGTH] 1 mi 2 yd 1 ft 300 in = 1.62 km"]
    );
    // Mixed metric units to imperial
    assert_eq!(run("1km 2m 30cm 5mm = ft"), vec!["[LENGTH] 1 km 2 m 30 cm 5 mm = 3288.4 ft"]);
    // Mixed metric units to imperial with higher precision
    assert_eq!(
        run("1km 2m 30cm 7mm = ft:4"),
        vec!["[LENGTH] 1 km 2 m 30 cm 7 mm = 3288.4088 ft"]
    );
    // Imperial to metric with high precision
    assert_eq!(run("5ft 10in = cm:4"), vec!["[LENGTH] 5 ft 10 in = 177.8 cm"]);
    // Fractional imperial units to metric
    assert_eq!(
        run("1/2mile 1/4yd 1/8ft = m"),
        vec!["[LENGTH] 0.5 mi 0.25 yd 0.125 ft = 804.94 m"]
    );
    // Negative values
    assert_eq!(run("-5ft -10in = m"), vec!["[LENGTH] -5 ft -10 in = -1.78 m"]);
    // Many small units adding up to a larger unit
    assert_eq!(
        run("1in 1in 1in 1in 1in 1in 1in 1in 1in 1in 1in 1in = ft"),
        vec!["[LENGTH] 12 in = 1 ft"]
    );
    // Many small units with different types adding up to a larger unit
    assert_eq!(run("1 yd 1/2 yd 1in 1in 1in = ft"), vec!["[LENGTH] 1.5 yd 3 in = 4.75 ft"]);
}

#[test]
fn test_mixed_units_with_other_unit_types() {
    // Compound weight units
    assert_eq!(run("1kg 500gm = lb"), vec!["[MASS] 1 kg 500 gm = 3.31 lb"]);
    // Mixed weight units, higher precision
    assert_eq!(run("1kg 0.5lb = lb:3"), vec!["[MASS] 1 kg 0.5 lb = 2.705 lb"]);
    // Imperial weight units to metric
    assert_eq!(run("1lb 0.5lb = kg"), vec!["[MASS] 1.5 lb = 0.68 kg"]);
    // Imperial weight units to metric, higher precision
    assert_eq!(run("1lb 0.5lb = kg:5"), vec!["[MASS] 1.5 lb = 0.68039 kg"]);
    // single unit type word
    assert_eq!(run("1000 m2 to acres"), vec!["[AREA] 1000 m\u{b2} = 0.25 a"]);
    // multiple unit type words
    assert_eq!(run("1000 square meters to acres"), vec!["[AREA] 1000 m\u{b2} = 0.25 a"]);
    // Mixed volume units with multiple source unit types
    assert_eq!(
        run("1gal 2qt 1pt = l"),
        vec![
            "[VOLUME] 1 gal 2 qt 1 pt (Imperial) = 7.39 l",
            "[VOLUME] 1 gal 2 qt 1 pt (US liquid) = 6.15 l",
        ]
    );
    // Volume units with multiple target unit types
    assert_eq!(
        run("1l = qt"),
        vec!["[VOLUME] 1 l = 0.88 qt (Imperial)", "[VOLUME] 1 l = 1.06 qt (US liquid)"]
    );
    // Volume units with multiple source and target unit types
    assert_eq!(
        run("1gal = qt"),
        vec![
            "[VOLUME] 1 gal (Imperial) = 4 qt (Imperial)",
            "[VOLUME] 1 gal (Imperial) = 4.8 qt (US liquid)",
            "[VOLUME] 1 gal (US liquid) = 3.33 qt (Imperial)",
            "[VOLUME] 1 gal (US liquid) = 4 qt (US liquid)",
        ]
    );
    // Volume units with multiple compound source values/types and target unit types
    assert_eq!(
        run("1gal 2qt = pt"),
        vec![
            "[VOLUME] 1 gal 2 qt (Imperial) = 12 pt (Imperial)",
            "[VOLUME] 1 gal 2 qt (Imperial) = 14.41 pt (US liquid)",
            "[VOLUME] 1 gal 2 qt (US liquid) = 9.99 pt (Imperial)",
            "[VOLUME] 1 gal 2 qt (US liquid) = 12 pt (US liquid)",
        ]
    );
    // Mixed time units
    assert_eq!(run("1h 30min 45s = min"), vec!["[TIME] 1 hr 30 min 45 s = 90.75 min"]);
}

#[test]
fn test_edge_cases_and_errors() {
    // Testing with maximum precision: the aggregated total is exact, so the
    // half-away rounding at 14 places renders the exact 306.3875.
    assert_eq!(run("1ft 1/16in = mm:14"), vec!["[LENGTH] 1 ft 0.0625 in = 306.3875 mm"]);
    // Very large mixed numbers
    assert_eq!(
        run("9999mi 9999yd 9999ft 9999in = km"),
        vec!["[LENGTH] 9999 mi 9999 yd 9999 ft 9999 in = 16104.24 km"]
    );
    // Mixing different unit types (length and weight)
    assert_eq!(
        run("5ft 10kg 20W = m"),
        vec!["[ Unit type mismatch: mixed 'LENGTH' with 'MASS' ]"]
    );
    // Using an unknown unit
    assert_eq!(run("5ft 10parsecs = m"), vec!["[ Unknown unit: parsecs ]"]);
}
