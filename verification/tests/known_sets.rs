use sudoku_rust::layout::knowns::known::Known;
use sudoku_rust::layout::knowns::set::{KnownSet, EMPTY};

fn known(value: u8) -> Known {
    Known::new(value)
}

#[test]
fn empty_returns_an_empty_set() {
    let set = KnownSet::empty();

    assert!(set.is_empty());
    assert_eq!(0, set.size());
    for i in 1..=9 {
        assert!(!set.has(known(i)));
    }
}

#[test]
fn full_returns_a_full_set() {
    let set = KnownSet::full();

    assert!(!set.is_empty());
    assert_eq!(9, set.size());
    for i in 1..=9 {
        assert!(set.has(known(i)));
    }
}

#[test]
fn new_returns_a_set_with_the_given_bits() {
    let set = KnownSet::new(0b101010101);

    assert!(!set.is_empty());
    assert_eq!(5, set.size());
    for i in 1..=9 {
        assert_eq!(i % 2 == 1, set.has(known(i)));
    }
}

#[test]
fn add_returns_the_same_set_when_the_known_is_present() {
    let set = KnownSet::from("2 5 8 9");

    let got = set.with(known(5));
    assert_eq!(set, got);
}

#[test]
fn add_returns_a_new_set_when_the_known_is_not_present() {
    let set = KnownSet::from("2 5 8 9");

    let got = set.with(known(6));
    assert_ne!(set, got);
    assert!(got.has(known(6)));
}

#[test]
fn sub_returns_the_same_set_when_the_known_is_not_present() {
    let set = KnownSet::from("2 5 8 9");

    let got = set.without(known(6));
    assert_eq!(set, got);
}

#[test]
fn sub_returns_the_same_set_when_the_known_is_present() {
    let set = KnownSet::from("2 5 8 9");

    let got = set.without(known(5));
    assert_ne!(set, got);
    assert!(!got.has(known(5)));
}

#[test]
fn not() {
    assert_eq!(true, KnownSet::empty().not());
    assert_eq!(false, KnownSet::full().not());
}

#[test]
fn neg_returns_an_inverted_set() {
    assert_eq!(KnownSet::full(), KnownSet::empty().neg());
    assert_eq!(KnownSet::empty(), KnownSet::full().neg());

    assert_eq!(KnownSet::from("2 5 8 9"), KnownSet::from("1 3 4 6 7").neg());
}

#[test]
fn unions() {
    assert_eq!(KnownSet::empty(), KnownSet::empty().union(KnownSet::empty()));
    assert_eq!(KnownSet::full(), KnownSet::full().union(KnownSet::empty()));
    assert_eq!(KnownSet::full(), KnownSet::empty().union(KnownSet::full()));
    assert_eq!(KnownSet::full(), KnownSet::full().union(KnownSet::full()));

    let mut set = KnownSet::empty();
    set.union_with(KnownSet::full());
    assert!(set.is_full());
}

#[test]
fn intersections() {
    assert_eq!(KnownSet::empty(), KnownSet::empty().intersect(KnownSet::empty()));
    assert_eq!(KnownSet::empty(), KnownSet::full().intersect(KnownSet::empty()));
    assert_eq!(KnownSet::empty(), KnownSet::empty().intersect(KnownSet::full()));
    assert_eq!(KnownSet::full(), KnownSet::full().intersect(KnownSet::full()));

    let mut set = KnownSet::full();
    set.intersect_with(KnownSet::empty());
    assert!(set.is_empty());
}

#[test]
fn differences() {
    assert_eq!(KnownSet::empty(), KnownSet::empty().minus(KnownSet::empty()));
    assert_eq!(KnownSet::full(), KnownSet::full().minus(KnownSet::empty()));
    assert_eq!(KnownSet::empty(), KnownSet::empty().minus(KnownSet::full()));
    assert_eq!(KnownSet::empty(), KnownSet::full().minus(KnownSet::full()));

    let mut set = KnownSet::full();
    set.subtract(KnownSet::full());
    assert!(set.is_empty());
}

#[test]
fn strings() {
    let mut set = KnownSet::empty();

    assert_eq!(EMPTY.to_string(), set.to_string());

    set.add(Known::from_str("4"));
    set.add(Known::from_str("2"));
    set.add(Known::from_str("6"));
    set.add(Known::from_str("9"));

    assert_eq!("(·2·4·6··9)", set.to_string());
}
