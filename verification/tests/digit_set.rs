use sudoku_rust::layout::values::digit::Digit;
use sudoku_rust::layout::values::digit_set::DigitSet;

fn digit(n: u8) -> Digit {
    Digit::from_ordinal(n)
}

fn digits(labels: &str) -> DigitSet {
    DigitSet::try_from(labels).unwrap()
}

fn all_digits() -> DigitSet {
    DigitSet::full()
}

#[test]
fn digit_set_empty_returns_an_empty_set() {
    let set = digits("");

    assert!(set.is_empty());
    assert_eq!(0, set.len());
    for i in 1..=9 {
        assert!(!set.has(Digit::from_ordinal(i)));
    }
}

#[test]
fn digit_set_full_returns_a_full_set() {
    let set = all_digits();

    assert!(!set.is_empty());
    assert_eq!(9, set.len());
    for i in 1..=9 {
        assert!(set.has(Digit::from_ordinal(i)));
    }
}

#[test]
fn digit_set_new_returns_a_set_with_the_given_bits() {
    let set = DigitSet::new(0b101010101);

    assert!(!set.is_empty());
    assert_eq!(5, set.len());
    for i in 1..=9 {
        assert_eq!(i % 2 == 1, set.has(Digit::from_ordinal(i)));
    }
}

#[test]
fn digit_set_as_pair_returns_none_if_not_pair() {
    assert!(digits("").as_pair().is_none());
    assert!(all_digits().as_pair().is_none());
    assert!(digits("2 5 8 9").as_pair().is_none());
}

#[test]
fn digit_set_as_pair_returns_pair() {
    assert_eq!((digit(2), digit(5)), digits("2 5").as_pair().unwrap());
    assert_eq!((digit(1), digit(9)), digits("9 1").as_pair().unwrap());
}

#[test]
fn digit_set_as_triple_returns_none_if_not_triple() {
    assert!(digits("").as_triple().is_none());
    assert!(all_digits().as_triple().is_none());
    assert!(digits("2 5 8 9").as_triple().is_none());
}

#[test]
fn digit_set_as_triple_returns_triple() {
    assert_eq!((digit(2), digit(5), digit(8)), digits("2 5 8").as_triple().unwrap());
    assert_eq!((digit(1), digit(5), digit(9)), digits("9 5 1").as_triple().unwrap());
}

#[test]
fn add_returns_the_same_set_when_the_digit_is_present() {
    let set = digits("2 5 8 9");

    let got = set.with(digit(5));
    assert_eq!(set, got);
}

#[test]
fn add_returns_a_new_set_when_the_digit_is_not_present() {
    let set = digits("2 5 8 9");

    let got = set.with(digit(6));
    assert_ne!(set, got);
    assert!(got.has(digit(6)));
}

#[test]
fn sub_returns_the_same_set_when_the_digit_is_not_present() {
    let set = digits("2 5 8 9");

    let got = set.without(digit(6));
    assert_eq!(set, got);
}

#[test]
fn sub_returns_the_same_set_when_the_digit_is_present() {
    let set = digits("2 5 8 9");

    let got = set.without(digit(5));
    assert_ne!(set, got);
    assert!(!got.has(digit(5)));
}

#[test]
fn digit_set_not_returns_an_inverted_set() {
    assert_eq!(all_digits(), digits("").inverted());
    assert_eq!(digits(""), all_digits().inverted());

    assert_eq!(digits("2 5 8 9"), digits("1 3 4 6 7").inverted());
}

#[test]
fn digit_set_unions() {
    assert_eq!(digits(""), digits("").union(digits("")));
    assert_eq!(all_digits(), all_digits().union(digits("")));
    assert_eq!(all_digits(), digits("").union(all_digits()));
    assert_eq!(all_digits(), all_digits().union(all_digits()));

    let mut set = digits("");
    set.union_with(all_digits());
    assert!(set.is_full());
}

#[test]
fn digit_set_intersections() {
    assert_eq!(digits(""), digits("").intersect(digits("")));
    assert_eq!(digits(""), all_digits().intersect(digits("")));
    assert_eq!(digits(""), digits("").intersect(all_digits()));
    assert_eq!(all_digits(), all_digits().intersect(all_digits()));

    let mut set = all_digits();
    set.intersect_with(digits(""));
    assert!(set.is_empty());
}

#[test]
fn digit_set_differences() {
    assert_eq!(digits(""), digits("").minus(digits("")));
    assert_eq!(all_digits(), all_digits().minus(digits("")));
    assert_eq!(digits(""), digits("").minus(all_digits()));
    assert_eq!(digits(""), all_digits().minus(all_digits()));

    let mut set = all_digits();
    set.subtract(all_digits());
    assert!(set.is_empty());
}

#[test]
fn digit_set_strings() {
    let mut set = digits("");

    assert_eq!("∅", set.to_string());

    set.add(digit(4));
    set.add(digit(2));
    set.add(digit(6));
    set.add(digit(9));

    assert_eq!("(·2·4·6··9)", set.to_string());
}
