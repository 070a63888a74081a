use sudoku_rust::layout::values::digit::Digit;
use sudoku_rust::layout::values::value::{Value, MISSING};

#[test]
fn none_and_default_are_missing() {
    let none = Value::none();
    let defaulted = Value::default();

    assert!(none.is_none());
    assert!(defaulted.is_none());
    assert_eq!(Value::NONE, none.value());
    assert_eq!(MISSING, none.label());
}

#[test]
fn new_digit_is_detected() {
    let value = Value::new(5);

    assert!(value.is_digit());
    assert_eq!(Some(Digit::from_ordinal(5)), value.digit());
    assert_eq!(5, value.value());
    assert_eq!('5', value.label());
}

#[test]
fn digit_returns_none_for_missing() {
    let value = Value::none();

    assert_eq!(None, value.digit());
}

#[test]
fn conversions_work() {
    let from_digit = Value::from_digit(Digit::from_ordinal(9));
    let from_u8 = Value::from_u8(4);
    let from_char = Value::from_char('7');
    let from_zero = Value::from_char('0');
    let from_str = Value::from_label("8");

    assert_eq!(9, from_digit.value());
    assert_eq!(4, from_u8.value());
    assert_eq!(7, from_char.value());
    assert!(from_zero.is_none());
    assert_eq!(8, from_str.value());
}

#[test]
fn not_operator_matches_missing_state() {
    assert!(Value::none().not());
    assert!(!Value::new(3).not());
}

#[test]
fn formatting_uses_labels() {
    let value = Value::new(2);

    assert_eq!("2", value.label().to_string());
    assert_eq!(MISSING.to_string(), Value::none().label().to_string());
}

#[test]
fn value_macro_creates_value() {
    let value = Value::new(3);

    assert_eq!(3, value.value());
}
