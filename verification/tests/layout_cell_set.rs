use sudoku_rust::layout::cells::bit::Bit;
use sudoku_rust::layout::cells::cell::Cell;
use sudoku_rust::layout::cells::cell_set::CellSet;
use sudoku_rust::layout::houses::coord::Coord;
use sudoku_rust::layout::houses::house::House;
use sudoku_rust::layout::houses::house_set::HouseSet;
use sudoku_rust::layout::houses::shape::Shape;

fn cell(label: &str) -> Cell {
    Cell::try_from(label).unwrap()
}

fn cells(labels: &str) -> CellSet {
    CellSet::from(labels)
}

fn house(label: &str) -> House {
    let mut chars = label.chars();
    let shape = match chars.next().unwrap() {
        'R' => Shape::Row,
        'C' => Shape::Column,
        _ => Shape::Block,
    };
    let digit = chars.next().unwrap() as u8 - b'1';
    House::new(shape, Coord::new(digit))
}

fn houses(labels: &str) -> HouseSet {
    let first = house(labels.split(' ').next().unwrap());
    let mut set = HouseSet::empty(first.shape());
    for label in labels.split(' ') {
        set.add(house(label));
    }
    set
}

fn collect(set: &CellSet) -> Vec<Cell> {
    let mut iter = set.iter();
    let mut out = Vec::new();
    while let Some(c) = iter.next() {
        out.push(c);
    }
    out
}

#[test]
fn cell_set_empty() {
    let set = CellSet::empty();

    assert!(set.is_empty());
    assert_eq!(0, set.len());
    for i in 0..81 {
        assert!(!set.has(Cell::new(i)));
    }
}

#[test]
fn cell_set_full() {
    let set = CellSet::full();

    assert!(!set.is_empty());
    assert_eq!(Cell::COUNT, set.len() as u8);
    for i in 0..81 {
        assert!(set.has(Cell::new(i)));
    }
}

#[test]
fn new() {
    let set = CellSet::new(
        0b101010101010101010101010101010101010101010101010101010101010101010101010101010101,
    );

    assert!(!set.is_empty());
    assert_eq!(41, set.len());
    for i in 0..81 {
        assert_eq!(i % 2 == 0, set.has(Cell::new(i)));
    }
}

#[test]
fn new_from_pattern() {
    let set = CellSet::new_from_pattern(
        "
            7..1....9
            .2.3..7..
            4.9......
            .6.8..2..
            .........
            .7...1.5.
            .....49..
            .46..5..2
            .1...68..
        ",
    );
    assert_eq!(
        CellSet::from("A1 A4 A9 B2 B4 B7 C1 C3 D2 D4 D7 F2 F6 F8 G6 G7 H2 H3 H6 H9 J2 J6 J7"),
        set
    );
}

#[test]
fn of() {
    let set = CellSet::of(&[cell("A4"), cell("G7"), cell("C2"), cell("J6")]);
    assert_eq!(CellSet::from("A4 C2 G7 J6"), set);
}

#[test]
fn is_empty() {
    assert_eq!(true, CellSet::empty().is_empty());
    assert_eq!(false, CellSet::full().is_empty());
    assert_eq!(false, cells("A5 D9 F3 H5").is_empty());
}

#[test]
fn is_full() {
    assert_eq!(false, CellSet::empty().is_full());
    assert_eq!(true, CellSet::full().is_full());
    assert_eq!(false, cells("A5 D9 F3 H5").is_full());
}

#[test]
fn len() {
    assert_eq!(0, CellSet::empty().len());
    assert_eq!(81, CellSet::full().len());
    assert_eq!(4, cells("A5 D9 F3 H5").len());
}

#[test]
fn has() {
    assert_eq!(false, CellSet::empty().has(cell("D4")));
    assert_eq!(true, CellSet::full().has(cell("D4")));
    assert_eq!(false, cells("A5 D9 F3 H5").has(cell("E8")));
    assert_eq!(true, cells("A5 D9 F3 H5").has(cell("F3")));
}

#[test]
fn has_any() {
    let set = cells("A5 D9 F3 H5");

    assert_eq!(false, CellSet::empty().has_any(set));
    assert_eq!(true, CellSet::full().has_any(set));
    assert_eq!(true, set.has_any(set));
    assert_eq!(false, set.has_any(cells("B8 D3")));
    assert_eq!(true, set.has_any(cells("A5 F3")));
    assert_eq!(true, set.has_any(cells("A5 B8 D3")));
}

#[test]
fn has_all() {
    let set = cells("A5 D9 F3 H5");

    assert_eq!(false, CellSet::empty().has_all(set));
    assert_eq!(true, CellSet::full().has_all(set));
    assert_eq!(true, set.has_all(set));
    assert_eq!(true, set.has_all(cells("D9 H5")));
    assert_eq!(false, set.has_all(cells("A5 B8 D3")));
}

#[test]
fn is_subset_of() {
    let set = cells("A5 D9 F3 H5");

    assert_eq!(false, set.is_subset_of(CellSet::empty()));
    assert_eq!(true, set.is_subset_of(CellSet::full()));
    assert_eq!(true, set.is_subset_of(set));
    assert_eq!(true, cells("D9 H5").is_subset_of(set));
    assert_eq!(false, cells("A5 C2 F3").is_subset_of(set));
}

#[test]
fn as_single_returns_none_if_not_single() {
    assert!(CellSet::empty().as_single().is_none());
    assert!(CellSet::full().as_single().is_none());
    assert!(cells("A5 D9 F3 H5").as_single().is_none());
}

#[test]
fn as_single_returns_single() {
    assert_eq!(cell("D3"), cells("D3").as_single().unwrap());
    assert_eq!(cell("F4"), cells("F4").as_single().unwrap());
}

#[test]
fn cell_set_as_pair_returns_none_if_not_pair() {
    assert!(CellSet::empty().as_pair().is_none());
    assert!(CellSet::full().as_pair().is_none());
    assert!(cells("A5 D9 F3 H5").as_pair().is_none());
}

#[test]
fn cell_set_as_pair_returns_pair() {
    assert_eq!((cell("D3"), cell("G5")), cells("D3 G5").as_pair().unwrap());
    assert_eq!((cell("F4"), cell("J2")), cells("J2 F4").as_pair().unwrap());
}

#[test]
fn cell_set_as_triple_returns_none_if_not_triple() {
    assert!(CellSet::empty().as_triple().is_none());
    assert!(CellSet::full().as_triple().is_none());
    assert!(cells("A5 D9 F3 H5").as_triple().is_none());
}

#[test]
fn cell_set_as_triple_returns_triple() {
    assert_eq!(
        (cell("D3"), cell("G5"), cell("H2")),
        cells("D3 G5 H2").as_triple().unwrap()
    );
    assert_eq!(
        (cell("E5"), cell("F4"), cell("J2")),
        cells("J2 F4 E5").as_triple().unwrap()
    );
}

#[test]
fn first_returns_none_if_empty() {
    assert_eq!(true, CellSet::empty().first().is_none());
}

#[test]
fn first() {
    assert_eq!(cell("D3"), cells("D3 G5 H2").first().unwrap());
    assert_eq!(cell("E5"), cells("J2 F4 E5").first().unwrap());
}

#[test]
fn pop_returns_none_if_empty() {
    let mut set = CellSet::empty();

    assert_eq!(true, set.pop().is_none());
    assert_eq!(true, set.is_empty());
}

#[test]
fn pop() {
    let mut set = cells("J2 F4 E5");

    assert_eq!(cell("E5"), set.pop().unwrap());
    assert_eq!(cells("F4 J2"), set);
}

#[test]
fn intersect_with() {
    let mut set = cells("A5 B8 D3");

    set.intersect_with(cells("A5 D9 B8 J2"));
    assert_eq!(cells("A5 B8"), set);
}

#[test]
fn invert() {
    let mut set = cells("A5 B8 D3");

    set.invert();
    assert_eq!(false, set.has(cell("A5")));
    assert_eq!(false, set.has(cell("B8")));
    assert_eq!(false, set.has(cell("D3")));
    assert_eq!(true, set.has(cell("J2")));
    assert_eq!(true, set.has(cell("C7")));

    set.add(cell("A5"));
    set.add(cell("B8"));
    set.add(cell("D3"));
    assert_eq!(CellSet::full(), set)
}

#[test]
fn rows() {
    assert_eq!(houses("R1 R3 R7 R8"), cells("A5 C2 C8 G9 H3 H6").rows());
}

#[test]
fn columns() {
    assert_eq!(
        houses("C2 C3 C5 C6 C8 C9"),
        cells("A5 C2 C8 G9 H3 H6").columns()
    );
}

#[test]
fn blocks() {
    assert_eq!(
        houses("B1 B2 B3 B7 B8 B9"),
        cells("A5 C2 C8 G9 H3 H6").blocks()
    );
}

#[test]
fn from_house() {
    assert_eq!(
        CellSet::from_house(house("R3")),
        cells("C1 C2 C3 C4 C5 C6 C7 C8 C9")
    );
    assert_eq!(
        CellSet::from_house(house("B3")),
        cells("A7 A8 A9 B7 B8 B9 C7 C8 C9")
    );
}

#[test]
fn from_labels() {
    assert_eq!(CellSet::new(0b111), cells("A1 A2 A3"));
    assert_eq!(CellSet::new(0b101010), cells("A2 A4 A6"));
}

#[test]
fn from_cell_iterator() {
    let set = cells("A7 A8 A9 B7 B8 B9 C7 C8 C9");

    assert_eq!(
        cells("A7 A8 A9 B7 B8 B9 C7 C8 C9"),
        CellSet::of(&collect(&set))
    );
}

#[test]
fn from_cell_set_iterator() {
    let sets = vec![
        cells("A7 A9 B8 C7 C9"),
        cells("A7 A9 C7 C9"),
        cells("A8 B7 B8 B9 C8"),
    ];

    let mut all = CellSet::empty();
    for set in sets.iter() {
        all.union_with(*set);
    }
    assert_eq!(cells("A7 A8 A9 B7 B8 B9 C7 C8 C9"), all);
}

#[test]
fn index_bit() {
    assert_eq!(true, cells("A1 A2 A3").has(Bit::new(0b10).cell()));
    assert_eq!(false, cells("A1 A2 A3").has(Bit::new(0b1000).cell()));
}

#[test]
fn index_cell() {
    assert_eq!(true, cells("A1 A2 A3").has(cell("A2")));
    assert_eq!(false, cells("A1 A2 A3").has(cell("C2")));
}

#[test]
fn index_label() {
    assert_eq!(true, cells("A1 A2 A3").has(cell("A2")));
    assert_eq!(false, cells("A1 A2 A3").has(cell("C2")));
}

#[test]
fn cell_set_add_returns_the_same_set_when_the_cell_is_present() {
    let set = cells("B3 A7 H5");

    let got = set.with(cell("A7"));
    assert_eq!(set, got);
}

#[test]
fn cell_set_add_returns_a_new_set_when_the_cell_is_not_present() {
    let set = cells("B3 A7 H5");

    let got = set.with(cell("G3"));
    assert_eq!(cells("B3 A7 G3 H5"), got);
}

#[test]
fn cell_set_sub_returns_the_same_set_when_the_cell_is_not_present() {
    let set = cells("B3 A7 H5");

    let got = set.without(cell("G3"));
    assert_eq!(set, got);
}

#[test]
fn cell_set_sub_returns_the_same_set_when_the_cell_is_present() {
    let set = cells("B3 A7 H5");

    let got = set.without(cell("A7"));
    assert_eq!(cells("B3 H5"), got);
}

#[test]
fn inverted() {
    assert_eq!(CellSet::full(), CellSet::empty().inverted());
    assert_eq!(CellSet::empty(), CellSet::full().inverted());

    assert_eq!(
        CellSet::full().without(cell("A5")).without(cell("C9")).without(cell("G2")),
        cells("A5 C9 G2").inverted()
    );
}

#[test]
fn union() {
    assert_eq!(CellSet::empty(), CellSet::empty().union(CellSet::empty()));
    assert_eq!(CellSet::full(), CellSet::full().union(CellSet::empty()));
    assert_eq!(CellSet::full(), CellSet::empty().union(CellSet::full()));
    assert_eq!(CellSet::full(), CellSet::full().union(CellSet::full()));

    assert_eq!(
        cells("A5 B2 C9 D7 G2 J5"),
        cells("A5 C9 G2").union(cells("B2 D7 J5"))
    );
}

#[test]
fn cell_set_intersect() {
    assert_eq!(CellSet::empty(), CellSet::empty().intersect(CellSet::empty()));
    assert_eq!(CellSet::empty(), CellSet::full().intersect(CellSet::empty()));
    assert_eq!(CellSet::empty(), CellSet::empty().intersect(CellSet::full()));
    assert_eq!(CellSet::full(), CellSet::full().intersect(CellSet::full()));

    assert_eq!(
        cells("A5 C9 G2"),
        cells("A5 B6 C9 F3 G2 J2").intersect(cells("A5 B2 C9 D7 G2 J5"))
    );
}

#[test]
fn minus() {
    assert_eq!(CellSet::empty(), CellSet::empty().minus(CellSet::empty()));
    assert_eq!(CellSet::full(), CellSet::full().minus(CellSet::empty()));
    assert_eq!(CellSet::empty(), CellSet::empty().minus(CellSet::full()));
    assert_eq!(CellSet::empty(), CellSet::full().minus(CellSet::full()));

    let mut set = CellSet::full();
    set.subtract(CellSet::full());
    assert!(set.is_empty());
}

#[test]
fn debug() {
    assert_eq!(
        "00:000000000000000000000000000000000000000000000000000000000000000000000000000000000",
        CellSet::empty().debug()
    );
    assert_eq!(
        "04:000000000000000010000100000000000000000000000000010000000000000010000000000000000",
        cells("B8 C4 F5 H2").debug()
    );
}

#[test]
fn to_string() {
    assert_eq!("∅", CellSet::empty().to_string());
    assert_eq!("B8 C4 F5 H2", cells("B8 C4 F5 H2").to_string());
}

#[test]
fn fmt_debug() {
    // The debug text of a set is its display text.
    assert_eq!("∅", CellSet::empty().to_string());
    assert_eq!("B8 C4 F5 H2", cells("B8 C4 F5 H2").to_string());
}

#[test]
fn pattern_string() {
    assert_eq!(
        ".................................................................................",
        CellSet::empty().pattern_string()
    );
    assert_eq!(
        "................1....1...........................1..............1................",
        cells("B8 C4 F5 H2").pattern_string()
    );
}

#[test]
fn bits() {
    assert_eq!(Bit::new(0b1000000), Cell::new(6).bit());
}
