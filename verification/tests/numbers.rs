use sudoku_rust::io::numbers::{format_number, format_runtime, ordinal_suffix};

#[test]
fn test_ordinal_suffix_basic() {
    assert_eq!("st", ordinal_suffix(1));
    assert_eq!("nd", ordinal_suffix(2));
    assert_eq!("rd", ordinal_suffix(3));
    assert_eq!("th", ordinal_suffix(4));
    assert_eq!("th", ordinal_suffix(5));
    assert_eq!("th", ordinal_suffix(6));
    assert_eq!("th", ordinal_suffix(7));
    assert_eq!("th", ordinal_suffix(8));
    assert_eq!("th", ordinal_suffix(9));
    assert_eq!("th", ordinal_suffix(10));
}

#[test]
fn test_ordinal_suffix_teens() {
    // The special cases: 11th, 12th, 13th (not 11st, 12nd, 13rd)
    assert_eq!("th", ordinal_suffix(11));
    assert_eq!("th", ordinal_suffix(12));
    assert_eq!("th", ordinal_suffix(13));
}

#[test]
fn test_ordinal_suffix_twenties() {
    assert_eq!("th", ordinal_suffix(20));
    assert_eq!("st", ordinal_suffix(21));
    assert_eq!("nd", ordinal_suffix(22));
    assert_eq!("rd", ordinal_suffix(23));
    assert_eq!("th", ordinal_suffix(24));
}

#[test]
fn test_ordinal_suffix_hundreds() {
    assert_eq!("st", ordinal_suffix(101));
    assert_eq!("nd", ordinal_suffix(102));
    assert_eq!("rd", ordinal_suffix(103));
    assert_eq!("th", ordinal_suffix(111));
    assert_eq!("th", ordinal_suffix(112));
    assert_eq!("th", ordinal_suffix(113));
    assert_eq!("st", ordinal_suffix(121));
}

#[test]
fn test_ordinal_suffix_large_numbers() {
    assert_eq!("st", ordinal_suffix(1001));
    assert_eq!("th", ordinal_suffix(1011));
    assert_eq!("st", ordinal_suffix(1021));
    assert_eq!("rd", ordinal_suffix(9999993));
}

#[test]
fn test_ordinal_suffix_sudoku_range() {
    // Test the range we'll actually use (1-81 for Sudoku)
    assert_eq!("st", ordinal_suffix(1));
    assert_eq!("nd", ordinal_suffix(2));
    assert_eq!("rd", ordinal_suffix(3));
    assert_eq!("th", ordinal_suffix(11));
    assert_eq!("th", ordinal_suffix(12));
    assert_eq!("th", ordinal_suffix(13));
    assert_eq!("st", ordinal_suffix(21));
    assert_eq!("nd", ordinal_suffix(22));
    assert_eq!("rd", ordinal_suffix(23));
    assert_eq!("st", ordinal_suffix(31));
    assert_eq!("st", ordinal_suffix(41));
    assert_eq!("st", ordinal_suffix(51));
    assert_eq!("st", ordinal_suffix(61));
    assert_eq!("st", ordinal_suffix(71));
    assert_eq!("st", ordinal_suffix(81));
}

#[test]
fn format_number_groups_thousands() {
    assert_eq!("0", format_number(0));
    assert_eq!("999", format_number(999));
    assert_eq!("1,000", format_number(1000));
    assert_eq!("12,345,678", format_number(12345678));
}

#[test]
fn format_runtime_counts_microseconds() {
    assert_eq!("1,234,567", format_runtime(std::time::Duration::from_micros(1234567)));
    assert_eq!("2,000", format_runtime(std::time::Duration::from_millis(2)));
}
