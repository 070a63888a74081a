use sudoku_rust::layout::values::known::Known;
use sudoku_rust::layout::values::known_set::KnownSet;

fn known(n: u8) -> Known {
    Known::from_ordinal(n)
}

fn knowns(labels: &str) -> KnownSet {
    KnownSet::try_from(labels).unwrap()
}

fn all_knowns() -> KnownSet {
    KnownSet::full()
}

#[test]
fn known_set_empty_returns_an_empty_set() {
    let set = knowns("");

    assert!(set.is_empty());
    assert_eq!(0, set.len());
    for i in 1..=9 {
        assert!(!set.has(Known::from_ordinal(i)));
    }
}

#[test]
fn known_set_full_returns_a_full_set() {
    let set = all_knowns();

    assert!(!set.is_empty());
    assert_eq!(9, set.len());
    for i in 1..=9 {
        assert!(set.has(Known::from_ordinal(i)));
    }
}

#[test]
fn known_set_new_returns_a_set_with_the_given_bits() {
    let set = KnownSet::new(0b101010101);

    assert!(!set.is_empty());
    assert_eq!(5, set.len());
    for i in 1..=9 {
        assert_eq!(i % 2 == 1, set.has(Known::from_ordinal(i)));
    }
}

#[test]
fn known_set_as_pair_returns_none_if_not_pair() {
    assert!(knowns("").as_pair().is_none());
    assert!(all_knowns().as_pair().is_none());
    assert!(knowns("2 5 8 9").as_pair().is_none());
}

#[test]
fn known_set_as_pair_returns_pair() {
    assert_eq!((known(2), known(5)), knowns("2 5").as_pair().unwrap());
    assert_eq!((known(1), known(9)), knowns("9 1").as_pair().unwrap());
}

#[test]
fn known_set_as_triple_returns_none_if_not_triple() {
    assert!(knowns("").as_triple().is_none());
    assert!(all_knowns().as_triple().is_none());
    assert!(knowns("2 5 8 9").as_triple().is_none());
}

#[test]
fn known_set_as_triple_returns_triple() {
    assert_eq!((known(2), known(5), known(8)), knowns("2 5 8").as_triple().unwrap());
    assert_eq!((known(1), known(5), known(9)), knowns("9 5 1").as_triple().unwrap());
}

#[test]
fn known_set_add_returns_the_same_set_when_the_known_is_present() {
    let set = knowns("2 5 8 9");

    let got = set.with(known(5));
    assert_eq!(set, got);
}

#[test]
fn known_set_add_returns_a_new_set_when_the_known_is_not_present() {
    let set = knowns("2 5 8 9");

    let got = set.with(known(6));
    assert_ne!(set, got);
    assert!(got.has(known(6)));
}

#[test]
fn known_set_sub_returns_the_same_set_when_the_known_is_not_present() {
    let set = knowns("2 5 8 9");

    let got = set.without(known(6));
    assert_eq!(set, got);
}

#[test]
fn known_set_sub_returns_the_same_set_when_the_known_is_present() {
    let set = knowns("2 5 8 9");

    let got = set.without(known(5));
    assert_ne!(set, got);
    assert!(!got.has(known(5)));
}

#[test]
fn known_set_not_returns_an_inverted_set() {
    assert_eq!(all_knowns(), knowns("").inverted());
    assert_eq!(knowns(""), all_knowns().inverted());

    assert_eq!(knowns("2 5 8 9"), knowns("1 3 4 6 7").inverted());
}

#[test]
fn known_set_unions() {
    assert_eq!(knowns(""), knowns("").union(knowns("")));
    assert_eq!(all_knowns(), all_knowns().union(knowns("")));
    assert_eq!(all_knowns(), knowns("").union(all_knowns()));
    assert_eq!(all_knowns(), all_knowns().union(all_knowns()));

    let mut set = knowns("");
    set.union_with(all_knowns());
    assert!(set.is_full());
}

#[test]
fn known_set_intersections() {
    assert_eq!(knowns(""), knowns("").intersect(knowns("")));
    assert_eq!(knowns(""), all_knowns().intersect(knowns("")));
    assert_eq!(knowns(""), knowns("").intersect(all_knowns()));
    assert_eq!(all_knowns(), all_knowns().intersect(all_knowns()));

    let mut set = all_knowns();
    set.intersect_with(knowns(""));
    assert!(set.is_empty());
}

#[test]
fn known_set_differences() {
    assert_eq!(knowns(""), knowns("").minus(knowns("")));
    assert_eq!(all_knowns(), all_knowns().minus(knowns("")));
    assert_eq!(knowns(""), knowns("").minus(all_knowns()));
    assert_eq!(knowns(""), all_knowns().minus(all_knowns()));

    let mut set = all_knowns();
    set.subtract(all_knowns());
    assert!(set.is_empty());
}

#[test]
fn known_set_strings() {
    let mut set = knowns("");

    assert_eq!("∅", set.to_string());

    set.add(known(4));
    set.add(known(2));
    set.add(known(6));
    set.add(known(9));

    assert_eq!("(·2·4·6··9)", set.to_string());
}
