use cu::catalog::standard_catalog;
use cu::convert::convert_line;

fn run(input: &str) -> Vec<String> {
    let cat = standard_catalog();
    let (lines, usage) = convert_line(&cat, input);
    assert!(!usage, "unexpected usage request for {:?}", input);
    lines
}

#[test]
fn test_formula_field_usage() {
    // Freezing point: Fahrenheit to Celsius
    assert_eq!(run("32\u{b0}F = \u{b0}C"), vec!["[TEMPERATURE] 32 \u{b0}F = 0 \u{b0}C"]);
    assert_eq!(run("32F = \u{b0}C"), vec!["[TEMPERATURE] 32 \u{b0}F = 0 \u{b0}C"]);
    assert_eq!(run("32 F = \u{b0}C"), vec!["[TEMPERATURE] 32 \u{b0}F = 0 \u{b0}C"]);
    // Boiling point: Celsius to Fahrenheit
    assert_eq!(run("100\u{b0}C = \u{b0}F"), vec!["[TEMPERATURE] 100 \u{b0}C = 212 \u{b0}F"]);
    // Absolute zero: Kelvin to Celsius
    assert_eq!(run("0K = \u{b0}C"), vec!["[TEMPERATURE] 0 K = -273.15 \u{b0}C"]);
    // Kelvin to Celsius
    assert_eq!(run("273.15K = \u{b0}C"), vec!["[TEMPERATURE] 273.15 K = 0 \u{b0}C"]);
    // Body temperature: Celsius to Fahrenheit
    assert_eq!(run("36.6C = F"), vec!["[TEMPERATURE] 36.6 \u{b0}C = 97.88 \u{b0}F"]);
    assert_eq!(run("36.6\u{b0}C = \u{b0}F"), vec!["[TEMPERATURE] 36.6 \u{b0}C = 97.88 \u{b0}F"]);
    // Body temperature: Fahrenheit to Celsius
    assert_eq!(run("97.88\u{b0}F = \u{b0}C"), vec!["[TEMPERATURE] 97.88 \u{b0}F = 36.6 \u{b0}C"]);
    // Body temperature: Celsius to Kelvin
    assert_eq!(run("36.6\u{b0}C = K"), vec!["[TEMPERATURE] 36.6 \u{b0}C = 309.75 K"]);
}
