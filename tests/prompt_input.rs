use auclick::prompt::{parse_cps_input, wants_recreate, CpsInput};

#[test]
fn yes_answers() {
    assert!(wants_recreate("y\n"));
    assert!(wants_recreate("  Y \r\n"));
}

#[test]
fn other_answers() {
    assert!(!wants_recreate("n\n"));
    assert!(!wants_recreate("yes\n"));
    assert!(!wants_recreate(""));
    assert!(!wants_recreate("y y"));
}

#[test]
fn rate_from_trimmed_number() {
    assert_eq!(parse_cps_input("25\n"), CpsInput::Rate(25));
    assert_eq!(parse_cps_input("  +8 \r\n"), CpsInput::Rate(8));
}

#[test]
fn negative_or_mixed_rate_is_invalid() {
    assert_eq!(parse_cps_input("-5\n"), CpsInput::Invalid);
    assert_eq!(parse_cps_input("-5\n").rate(), 10);
    assert_eq!(parse_cps_input(" 1a2b \n"), CpsInput::Invalid);
    assert_eq!(parse_cps_input("1 2"), CpsInput::Invalid);
}

#[test]
fn zero_rate_is_refused() {
    assert_eq!(parse_cps_input("0\n"), CpsInput::Zero);
    assert_eq!(parse_cps_input("000"), CpsInput::Zero);
    assert_eq!(parse_cps_input("0\n").rate(), 10);
}

#[test]
fn rate_without_digits_or_too_large_is_invalid() {
    assert_eq!(parse_cps_input("fast\n"), CpsInput::Invalid);
    assert_eq!(parse_cps_input(""), CpsInput::Invalid);
    assert_eq!(parse_cps_input("4294967296"), CpsInput::Invalid);
    assert_eq!(parse_cps_input("+"), CpsInput::Invalid);
    assert_eq!(parse_cps_input("fast").rate(), 10);
}

#[test]
fn rate_keeps_positive_value() {
    assert_eq!(CpsInput::Rate(33).rate(), 33);
    assert_eq!(parse_cps_input("4294967295").rate(), 4294967295);
}
