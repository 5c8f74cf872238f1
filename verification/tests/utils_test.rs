use cu::catalog::standard_catalog;
use cu::format::format_number;
use cu::rational::Rational;
use cu::resolve::find_unit;
use cu::tokenize::parse_value_unit;

fn rat(n: i128, d: i128) -> Rational {
    Rational::new(n, d).unwrap()
}

#[test]
fn test_parse_value_unit() {
    let (v, u) = parse_value_unit("10").unwrap();
    assert_eq!(v, rat(10, 1));
    assert_eq!(u, "");

    let (v, u) = parse_value_unit("42").unwrap();
    assert_eq!(v, rat(42, 1));
    assert_eq!(u, "");

    let (v, u) = parse_value_unit("5ft").unwrap();
    assert_eq!(v, rat(5, 1));
    assert_eq!(u, "ft");

    let (v, u) = parse_value_unit("3.14m").unwrap();
    assert_eq!(v, rat(314, 100));
    assert_eq!(u, "m");

    let (v, u) = parse_value_unit("1/2in").unwrap();
    assert_eq!(v, rat(1, 2));
    assert_eq!(u, "in");

    let (v, u) = parse_value_unit("-10km").unwrap();
    assert_eq!(v, rat(-10, 1));
    assert_eq!(u, "km");

    let (v, u) = parse_value_unit("42 kg").unwrap();
    assert_eq!(v, rat(42, 1));
    assert_eq!(u, "kg");

    assert!(parse_value_unit("abc").is_none());
    assert!(parse_value_unit("").is_none());
    assert!(parse_value_unit("1/0m").is_none());
}

#[test]
fn test_format_number() {
    assert_eq!(format_number(&rat(3063875, 10000), Some(0)).unwrap(), "306");
    assert_eq!(format_number(&rat(1234567, 1), Some(0)).unwrap(), "1234567");
    assert_eq!(format_number(&rat(314159, 100000), None).unwrap(), "3.14");
    assert_eq!(format_number(&rat(314159, 100000), Some(4)).unwrap(), "3.1416");
    assert_eq!(
        format_number(&rat(30638750000000005, 100000000000000), Some(14)).unwrap(),
        "306.38750000000005"
    );
    assert_eq!(format_number(&rat(3145, 1000), Some(2)).unwrap(), "3.15");
    assert_eq!(format_number(&rat(-314159, 100000), Some(2)).unwrap(), "-3.14");
    assert_eq!(format_number(&rat(123456789, 100), Some(2)).unwrap(), "1234567.89");
    assert_eq!(format_number(&rat(123, 1000000), Some(5)).unwrap(), "0.00012");
    assert_eq!(format_number(&rat(123, 1000000), Some(99)).unwrap(), "0.000123");
}

#[test]
fn test_find_unit() {
    let cat = standard_catalog();

    let (f, u) = find_unit(&cat, "m", None).unwrap();
    assert_eq!(cat.families[f].name, "LENGTH");
    assert_eq!(cat.families[f].units[u].name, "Meter");

    // case-sensitive pass first: "B" is bytes, "b" is bits
    let (f, u) = find_unit(&cat, "B", None).unwrap();
    assert_eq!(cat.families[f].name, "DIGITAL STORAGE");
    assert_eq!(cat.families[f].units[u].name, "Byte");

    let (f, u) = find_unit(&cat, "b", None).unwrap();
    assert_eq!(cat.families[f].name, "DIGITAL STORAGE");
    assert_eq!(cat.families[f].units[u].name, "Bit");

    let (f, u) = find_unit(&cat, "km", None).unwrap();
    assert_eq!(cat.families[f].name, "LENGTH");
    assert_eq!(cat.families[f].units[u].name, "Kilometer");

    // case-insensitive abbreviation match
    let (f, u) = find_unit(&cat, "KM", None).unwrap();
    assert_eq!(cat.families[f].name, "LENGTH");
    assert_eq!(cat.families[f].units[u].name, "Kilometer");

    // alias match
    let (f, u) = find_unit(&cat, "square meter", None).unwrap();
    assert_eq!(cat.families[f].name, "AREA");
    assert_eq!(cat.families[f].units[u].name, "Square Meter");

    let (f, u) = find_unit(&cat, "celsius", None).unwrap();
    assert_eq!(cat.families[f].name, "TEMPERATURE");
    assert_eq!(cat.families[f].units[u].name, "Celsius");

    // family-constrained resolution
    let (tf, _) = find_unit(&cat, "m", None).unwrap();
    let (f, u) = find_unit(&cat, "in", Some(tf)).unwrap();
    assert_eq!(f, tf);
    assert_eq!(cat.families[f].units[u].name, "Inch");

    // constrained resolution misses units of other families
    assert!(find_unit(&cat, "kg", Some(tf)).is_none());

    assert!(find_unit(&cat, "invalid_unit", None).is_none());
    assert!(find_unit(&cat, "", None).is_none());
}

#[test]
fn test_find_unit_alias_and_symbol_forms() {
    let cat = standard_catalog();

    // the short alias form resolves to the same unit as the long one
    let (f, u) = find_unit(&cat, "m2", None).unwrap();
    assert_eq!(cat.families[f].name, "AREA");
    assert_eq!(cat.families[f].units[u].abbr, "m\u{b2}");
    let (f2, u2) = find_unit(&cat, "square meter", None).unwrap();
    assert_eq!((f, u), (f2, u2));

    // the special-character abbreviation resolves exactly
    let (f, u) = find_unit(&cat, "\u{b0}C", None).unwrap();
    assert_eq!(cat.families[f].name, "TEMPERATURE");
    assert_eq!(cat.families[f].units[u].name, "Celsius");
    let (f, u) = find_unit(&cat, "\u{b0}F", None).unwrap();
    assert_eq!(cat.families[f].name, "TEMPERATURE");
    assert_eq!(cat.families[f].units[u].name, "Fahrenheit");
}
