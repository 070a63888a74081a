use sudoku_rust::layout::cells::cell::Cell;
use sudoku_rust::layout::cells::set::{CellSet, EMPTY};

fn cell(label: &str) -> Cell {
    Cell::try_from(label).unwrap()
}

#[test]
fn set_empty_returns_an_empty_set() {
    let set = CellSet::empty();

    assert!(set.is_empty());
    assert_eq!(0, set.size());
    for i in 0..81 {
        assert!(!set.has(Cell::new(i)));
    }
}

#[test]
fn set_full_returns_a_full_set() {
    let set = CellSet::full();

    assert!(!set.is_empty());
    assert_eq!(Cell::COUNT, set.size());
    for i in 0..81 {
        assert!(set.has(Cell::new(i)));
    }
}

#[test]
fn set_new_returns_a_set_with_the_given_bits() {
    let set = CellSet::new(
        0b101010101010101010101010101010101010101010101010101010101010101010101010101010101,
    );

    assert!(!set.is_empty());
    assert_eq!(41, set.size());
    for i in 0..81 {
        assert_eq!(i % 2 == 0, set.has(Cell::new(i)));
    }
}

#[test]
fn from() {
    assert_eq!(CellSet::new(0b111), CellSet::from("A1 A2 A3"));
    assert_eq!(CellSet::new(0b101010), CellSet::from("A2 A4 A6"));
}

#[test]
fn set_add_returns_the_same_set_when_the_cell_is_present() {
    let set = CellSet::new(0b10000001000001);

    let got = set.with(cell("A7"));
    assert_eq!(set, got);
}

#[test]
fn set_add_returns_a_new_set_when_the_cell_is_not_present() {
    let set = CellSet::new(0b10000001000001);

    let got = set.with(cell("G3"));
    assert_ne!(set, got);
    assert!(got.has(cell("G3")));
}

#[test]
fn set_sub_returns_the_same_set_when_the_cell_is_not_present() {
    let set = CellSet::new(0b10000001000001);

    let got = set.without(cell("G3"));
    assert_eq!(set, got);
}

#[test]
fn set_sub_returns_the_same_set_when_the_cell_is_present() {
    let set = CellSet::new(0b10000001000001);

    let got = set.without(cell("A7"));
    assert_ne!(set, got);
    assert!(!got.has(cell("A7")));
}

#[test]
fn not_returns_is_empty() {
    assert_eq!(true, CellSet::empty().not());
    assert_eq!(false, CellSet::full().not());
}

#[test]
fn set_neg_returns_an_inverted_set() {
    assert_eq!(CellSet::full(), CellSet::empty().inverted());
    assert_eq!(CellSet::empty(), CellSet::full().inverted());

    assert_eq!(
        CellSet::full().without(cell("A5")).without(cell("C9")).without(cell("G2")),
        CellSet::from("A5 C9 G2").inverted()
    );
}

#[test]
fn set_unions() {
    assert_eq!(CellSet::empty(), CellSet::empty().union(CellSet::empty()));
    assert_eq!(CellSet::full(), CellSet::full().union(CellSet::empty()));
    assert_eq!(CellSet::full(), CellSet::empty().union(CellSet::full()));
    assert_eq!(CellSet::full(), CellSet::full().union(CellSet::full()));

    assert_eq!(
        CellSet::from("A5 B2 C9 D7 G2 J5"),
        CellSet::from("A5 C9 G2").union(CellSet::from("B2 D7 J5"))
    );
}

#[test]
fn set_intersections() {
    assert_eq!(CellSet::empty(), CellSet::empty().intersect(CellSet::empty()));
    assert_eq!(CellSet::empty(), CellSet::full().intersect(CellSet::empty()));
    assert_eq!(CellSet::empty(), CellSet::empty().intersect(CellSet::full()));
    assert_eq!(CellSet::full(), CellSet::full().intersect(CellSet::full()));

    assert_eq!(
        CellSet::from("A5 C9 G2"),
        CellSet::from("A5 B6 C9 F3 G2 J2").intersect(CellSet::from("A5 B2 C9 D7 G2 J5"))
    );
}

#[test]
fn set_differences() {
    assert_eq!(CellSet::empty(), CellSet::empty().minus(CellSet::empty()));
    assert_eq!(CellSet::full(), CellSet::full().minus(CellSet::empty()));
    assert_eq!(CellSet::empty(), CellSet::empty().minus(CellSet::full()));
    assert_eq!(CellSet::empty(), CellSet::full().minus(CellSet::full()));

    let mut set = CellSet::full();
    set.subtract(CellSet::full());
    assert!(set.is_empty());
}

#[test]
fn set_strings() {
    let mut set = CellSet::empty();

    assert_eq!(EMPTY.to_string(), set.to_string());

    set.add(cell("C4"));
    set.add(cell("B8"));
    set.add(cell("F5"));
    set.add(cell("H2"));

    assert_eq!("( B8 C4 F5 H2 )", set.to_string());
}
