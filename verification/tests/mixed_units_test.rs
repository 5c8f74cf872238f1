use cu::catalog::standard_catalog;
use cu::convert::convert_line;

fn run(input: &str) -> Vec<String> {
    let cat = standard_catalog();
    let (lines, usage) = convert_line(&cat, input);
    assert!(!usage, "unexpected usage request for {:?}", input);
    lines
}

#[test]
fn test_simple_mixed_units() {
    assert_eq!(run("5/2ft 3/4in = m"), vec!["[LENGTH] 2.5 ft 0.75 in = 0.78 m"]);
    assert_eq!(run("5ft 10in to m"), vec!["[LENGTH] 5 ft 10 in = 1.78 m"]);
    assert_eq!(run("1yd 2ft 4.7in = cm"), vec!["[LENGTH] 1 yd 2 ft 4.7 in = 164.34 cm"]);
    assert_eq!(run("1yd 2ft 4.7in = cm:3"), vec!["[LENGTH] 1 yd 2 ft 4.7 in = 164.338 cm"]);
    assert_eq!(run("1yd 2ft 3in = in"), vec!["[LENGTH] 1 yd 2 ft 3 in = 63 in"]);
    assert_eq!(
        run("900 kg 100000 gm = t:3"),
        vec![
            "[MASS] 900 kg 100000 gm = 1 t (Metric)",
            "[MASS] 900 kg 100000 gm = 0.984 t (Imperial)",
            "[MASS] 900 kg 100000 gm = 1.102 t (US)",
        ]
    );
}

#[test]
fn test_edge_cases() {
    assert_eq!(run("10in 5ft = m"), vec!["[LENGTH] 5 ft 10 in = 1.78 m"]);
    assert_eq!(run("10in 5ft = m:3"), vec!["[LENGTH] 5 ft 10 in = 1.778 m"]);
    assert_eq!(run("5.5ft 2.25in = cm"), vec!["[LENGTH] 5.5 ft 2.25 in = 173.36 cm"]);
    assert_eq!(run("5.5ft 2.25in = cm:3"), vec!["[LENGTH] 5.5 ft 2.25 in = 173.355 cm"]);
    assert_eq!(run("5/2ft 3/4in = m"), vec!["[LENGTH] 2.5 ft 0.75 in = 0.78 m"]);
    assert_eq!(run("5/2ft 3/4in = m:5"), vec!["[LENGTH] 2.5 ft 0.75 in = 0.78105 m"]);
    assert_eq!(run("5/2ft 3/4in = km:*"), vec!["[LENGTH] 2.5 ft 0.75 in = 0.00078105 km"]);
}

#[test]
fn test_failure_cases() {
    assert_eq!(run("5ft 10kg = m"), vec!["[ Unit type mismatch: mixed 'LENGTH' with 'MASS' ]"]);
    assert_eq!(run("5ft 10in = unknown"), vec!["[ Unknown unit: unknown ]"]);
    assert_eq!(
        run("5ft 10abc 20xyz = m"),
        vec!["[ Unknown unit: abc ]", "[ Unknown unit: xyz ]"]
    );
}
