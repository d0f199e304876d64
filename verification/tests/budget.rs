use energy_signal::parse_budget;

#[test]
fn absent_value_defaults_to_one() {
    assert_eq!(parse_budget(None), 1);
}

#[test]
fn empty_value_defaults_to_one() {
    assert_eq!(parse_budget(Some(b"".as_slice())), 1);
}

#[test]
fn plain_number_is_parsed() {
    assert_eq!(parse_budget(Some(b"5".as_slice())), 5);
    assert_eq!(parse_budget(Some(b"12".as_slice())), 12);
}

#[test]
fn zero_is_parsed_as_zero() {
    assert_eq!(parse_budget(Some(b"0".as_slice())), 0);
}

#[test]
fn leading_zeros_are_accepted() {
    assert_eq!(parse_budget(Some(b"007".as_slice())), 7);
}

#[test]
fn plus_sign_is_accepted() {
    assert_eq!(parse_budget(Some(b"+7".as_slice())), 7);
}

#[test]
fn bare_plus_sign_defaults_to_one() {
    assert_eq!(parse_budget(Some(b"+".as_slice())), 1);
}

#[test]
fn non_digits_default_to_one() {
    assert_eq!(parse_budget(Some(b"abc".as_slice())), 1);
    assert_eq!(parse_budget(Some(b"12x".as_slice())), 1);
    assert_eq!(parse_budget(Some(b" 5".as_slice())), 1);
    assert_eq!(parse_budget(Some(b"-3".as_slice())), 1);
}

#[test]
fn largest_value_is_parsed() {
    let s = format!("{}", usize::MAX);
    assert_eq!(parse_budget(Some(s.as_bytes())), usize::MAX);
}

#[test]
fn overflowing_value_defaults_to_one() {
    let s = format!("{}0", usize::MAX);
    assert_eq!(parse_budget(Some(s.as_bytes())), 1);
}
