use sudoku_rust::cell_set2::{Cell, CellSet, CELL_COUNT};

#[test]
fn cell_set2_empty_returns_an_empty_set() {
    let set = CellSet::empty();

    assert!(set.is_empty());
    assert_eq!(0, set.size());
    for i in 0..CELL_COUNT {
        assert!(!set.has(Cell::new(i)));
    }
}

#[test]
fn cell_set2_full_returns_a_full_set() {
    let set = CellSet::full();

    assert!(!set.is_empty());
    assert_eq!(CELL_COUNT, set.size());
    for i in 0..CELL_COUNT {
        assert!(set.has(Cell::new(i)));
    }
}

#[test]
fn cell_set2_new_returns_a_set_with_the_given_bits() {
    let set = CellSet::new(
        0b101010101010101010101010101010101010101010101010101010101010101010101010101010101,
    );

    assert!(!set.is_empty());
    assert_eq!(41, set.size());
    for i in 0..CELL_COUNT {
        assert_eq!(i % 2 == 0, set.has(Cell::new(i)));
    }
}

#[test]
fn cell_set2_add_returns_the_same_set_when_the_cell_is_present() {
    let set = CellSet::new(0b10000001000001);

    let got = set.add(Cell::new(6));
    assert_eq!(set, got);
}

#[test]
fn cell_set2_add_returns_a_new_set_when_the_cell_is_not_present() {
    let set = CellSet::new(0b10000001000001);

    let got = set.add(Cell::new(42));
    assert_ne!(set, got);
    assert!(got.has(Cell::new(42)));
}

#[test]
fn cell_set2_sub_returns_the_same_set_when_the_cell_is_not_present() {
    let set = CellSet::new(0b10000001000001);

    let got = set.sub(Cell::new(42));
    assert_eq!(set, got);
}

#[test]
fn cell_set2_sub_returns_the_same_set_when_the_cell_is_present() {
    let set = CellSet::new(0b10000001000001);

    let got = set.sub(Cell::new(6));
    assert_ne!(set, got);
    assert!(!got.has(Cell::new(6)));
}

#[test]
fn cell_set2_not_returns_an_inverted_set() {
    assert_eq!(CellSet::full(), CellSet::empty().not());
    assert_eq!(CellSet::empty(), CellSet::full().not());

    assert_eq!(
        CellSet::new(0b100101010101010101010101101001011010100110101010101010101101010101010011001010101),
        CellSet::new(0b011010101010101010101010010110100101011001010101010101010010101010101100110101010)
            .not()
    );
    assert_eq!(
        CellSet::new(0b011010101010101010101010010110100101011001010101010101010010101010101100110101010),
        CellSet::new(0b100101010101010101010101101001011010100110101010101010101101010101010011001010101)
            .not()
    );
}

#[test]
fn cell_set2_unions() {
    assert_eq!(CellSet::empty(), CellSet::empty().bitor(CellSet::empty()));
    assert_eq!(CellSet::full(), CellSet::full().bitor(CellSet::empty()));
    assert_eq!(CellSet::full(), CellSet::empty().bitor(CellSet::full()));
    assert_eq!(CellSet::full(), CellSet::full().bitor(CellSet::full()));

    let mut set = CellSet::empty();
    set.bitor_assign(CellSet::full());
    assert!(set.is_full());
}

#[test]
fn cell_set2_intersections() {
    assert_eq!(CellSet::empty(), CellSet::empty().bitand(CellSet::empty()));
    assert_eq!(CellSet::empty(), CellSet::full().bitand(CellSet::empty()));
    assert_eq!(CellSet::empty(), CellSet::empty().bitand(CellSet::full()));
    assert_eq!(CellSet::full(), CellSet::full().bitand(CellSet::full()));

    let mut set = CellSet::full();
    set.bitand_assign(CellSet::empty());
    assert!(set.is_empty());
}

#[test]
fn cell_set2_differences() {
    assert_eq!(CellSet::empty(), CellSet::empty().minus(CellSet::empty()));
    assert_eq!(CellSet::full(), CellSet::full().minus(CellSet::empty()));
    assert_eq!(CellSet::empty(), CellSet::empty().minus(CellSet::full()));
    assert_eq!(CellSet::empty(), CellSet::full().minus(CellSet::full()));

    let mut set = CellSet::full();
    set.minus_assign(CellSet::full());
    assert!(set.is_empty());
}

#[test]
fn cell_coordinates() {
    let cell = Cell::new(42);
    assert_eq!(42, cell.value());
    assert_eq!(1u128 << 42, cell.bit());
    assert_eq!(4, cell.row());
    assert_eq!(6, cell.column());
    assert_eq!(5, cell.block());
}
