use sudoku_rust::layout::cells::cell::Cell;
use sudoku_rust::layout::cells::cell_set::CellSet;
use sudoku_rust::layout::houses::coord::Coord;
use sudoku_rust::layout::houses::coord_set::CoordSet;
use sudoku_rust::layout::houses::house::House;
use sudoku_rust::layout::houses::house_set::HouseSet;
use sudoku_rust::layout::houses::shape::Shape;

fn coord(n: u8) -> Coord {
    Coord::from_ordinal(n)
}

fn cells(labels: &str) -> CellSet {
    CellSet::from(labels)
}

fn row(label: char) -> House {
    House::row(Coord::try_from(label).unwrap())
}

fn col(label: char) -> House {
    House::column(Coord::try_from(label).unwrap())
}

fn block(label: char) -> House {
    House::block(Coord::try_from(label).unwrap())
}

fn rows(labels: &str) -> HouseSet {
    HouseSet::try_from_with_shape(Shape::Row, labels).unwrap()
}

fn cols(labels: &str) -> HouseSet {
    HouseSet::try_from_with_shape(Shape::Column, labels).unwrap()
}

fn house_list(set: &HouseSet) -> Vec<House> {
    let mut iter = set.iter();
    let mut out = Vec::new();
    while let Some(h) = iter.next() {
        out.push(h);
    }
    out
}

#[test]
fn coord_set_empty_returns_an_empty_set() {
    let set = CoordSet::empty();

    assert!(set.is_empty());
    assert_eq!(0, set.len());
    for i in 1..=9 {
        assert!(!set.has(coord(i)));
    }
}

#[test]
fn coord_set_full_returns_a_full_set() {
    let set = CoordSet::full();

    assert!(!set.is_empty());
    assert_eq!(9, set.len());
    for i in 1..=9 {
        assert!(set.has(coord(i)));
    }
}

#[test]
fn coord_set_new_returns_a_set_with_the_given_bits() {
    let set = CoordSet::new(0b101010101);

    assert!(!set.is_empty());
    assert_eq!(5, set.len());
    for i in 1..=9 {
        assert_eq!(i % 2 == 1, set.has(coord(i)));
    }
}

#[test]
fn coord_set_as_pair_returns_none_if_not_pair() {
    assert!(CoordSet::empty().as_pair().is_none());
    assert!(CoordSet::full().as_pair().is_none());
    assert!(CoordSet::from("2 5 8 9").as_pair().is_none());
}

#[test]
fn coord_set_as_pair_returns_pair() {
    assert_eq!((coord(2), coord(5)), CoordSet::from("2 5").as_pair().unwrap());
    assert_eq!((coord(1), coord(9)), CoordSet::from("9 1").as_pair().unwrap());
}

#[test]
fn coord_set_as_triple_returns_none_if_not_triple() {
    assert!(CoordSet::empty().as_triple().is_none());
    assert!(CoordSet::full().as_triple().is_none());
    assert!(CoordSet::from("2 5 8 9").as_triple().is_none());
}

#[test]
fn coord_set_as_triple_returns_triple() {
    assert_eq!(
        (coord(2), coord(5), coord(8)),
        CoordSet::from("2 5 8").as_triple().unwrap()
    );
    assert_eq!(
        (coord(1), coord(5), coord(9)),
        CoordSet::from("9 5 1").as_triple().unwrap()
    );
}

#[test]
fn add_returns_the_same_set_when_the_coord_is_present() {
    let set = CoordSet::from("2 5 8 9");

    let got = set.with(coord(5));
    assert_eq!(set, got);
}

#[test]
fn add_returns_a_new_set_when_the_coord_is_not_present() {
    let set = CoordSet::from("2 5 8 9");

    let got = set.with(coord(6));
    assert_ne!(set, got);
    assert!(got.has(coord(6)));
}

#[test]
fn sub_returns_the_same_set_when_the_coord_is_not_present() {
    let set = CoordSet::from("2 5 8 9");

    let got = set.without(coord(6));
    assert_eq!(set, got);
}

#[test]
fn sub_returns_the_same_set_when_the_coord_is_present() {
    let set = CoordSet::from("2 5 8 9");

    let got = set.without(coord(5));
    assert_ne!(set, got);
    assert!(!got.has(coord(5)));
}

#[test]
fn coord_set_not_returns_an_inverted_set() {
    assert_eq!(CoordSet::full(), CoordSet::empty().inverted());
    assert_eq!(CoordSet::empty(), CoordSet::full().inverted());

    assert_eq!(CoordSet::from("2 5 8 9"), CoordSet::from("1 3 4 6 7").inverted());
}

#[test]
fn coord_set_unions() {
    assert_eq!(CoordSet::empty(), CoordSet::empty().union(CoordSet::empty()));
    assert_eq!(CoordSet::full(), CoordSet::full().union(CoordSet::empty()));
    assert_eq!(CoordSet::full(), CoordSet::empty().union(CoordSet::full()));
    assert_eq!(CoordSet::full(), CoordSet::full().union(CoordSet::full()));

    let mut set = CoordSet::empty();
    set.union_with(CoordSet::full());
    assert!(set.is_full());
}

#[test]
fn coord_set_intersections() {
    assert_eq!(CoordSet::empty(), CoordSet::empty().intersect(CoordSet::empty()));
    assert_eq!(CoordSet::empty(), CoordSet::full().intersect(CoordSet::empty()));
    assert_eq!(CoordSet::empty(), CoordSet::empty().intersect(CoordSet::full()));
    assert_eq!(CoordSet::full(), CoordSet::full().intersect(CoordSet::full()));

    let mut set = CoordSet::full();
    set.intersect_with(CoordSet::empty());
    assert!(set.is_empty());
}

#[test]
fn coord_set_differences() {
    assert_eq!(CoordSet::empty(), CoordSet::empty().minus(CoordSet::empty()));
    assert_eq!(CoordSet::full(), CoordSet::full().minus(CoordSet::empty()));
    assert_eq!(CoordSet::empty(), CoordSet::empty().minus(CoordSet::full()));
    assert_eq!(CoordSet::empty(), CoordSet::full().minus(CoordSet::full()));

    let mut set = CoordSet::full();
    set.subtract(CoordSet::full());
    assert!(set.is_empty());
}

#[test]
fn coord_set_strings() {
    let mut set = CoordSet::empty();

    assert_eq!("∅", set.to_string());

    set.add(coord(4));
    set.add(coord(2));
    set.add(coord(6));
    set.add(coord(9));

    assert_eq!("(·2·4·6··9)", set.to_string());
}

#[test]
fn empty_has_no_houses() {
    let set = HouseSet::empty(Shape::Row);

    assert!(set.is_empty());
    assert_eq!(0, set.len());
    assert!(house_list(&set).is_empty());
    for i in 0..9 {
        assert!(!set.has(House::row(Coord::new(i))));
    }
}

#[test]
fn full_has_all_houses() {
    let set = HouseSet::full(Shape::Row);

    assert!(!set.is_empty());
    assert_eq!(9, set.len());
    assert_eq!(9, house_list(&set).len());
    for i in 0..9 {
        assert!(set.has(House::row(Coord::new(i))));
    }
}

#[test]
fn house_set_as_pair_returns_none_if_not_pair() {
    assert!(HouseSet::empty(Shape::Row).as_pair().is_none());
    assert!(HouseSet::full(Shape::Row).as_pair().is_none());
    assert!(rows("B D H").as_pair().is_none());
}

#[test]
fn house_set_as_pair_returns_pair() {
    assert_eq!((row('B'), row('H')), rows("B H").as_pair().unwrap());
    assert_eq!((row('D'), row('G')), rows("G D").as_pair().unwrap());
}

#[test]
fn house_set_as_triple_returns_none_if_not_triple() {
    assert!(HouseSet::empty(Shape::Row).as_triple().is_none());
    assert!(HouseSet::full(Shape::Row).as_triple().is_none());
    assert!(cols("2 4 7 9").as_triple().is_none());
}

#[test]
fn house_set_as_triple_returns_triple() {
    assert_eq!((col('1'), col('2'), col('4')), cols("1 2 4").as_triple().unwrap());
    assert_eq!((col('1'), col('2'), col('4')), cols("4 1 2").as_triple().unwrap());
}

#[test]
fn display_and_debug() {
    let empty = HouseSet::empty(Shape::Row);
    assert_eq!("Row ∅", empty.to_string());

    let set = rows("A C");
    let display = set.to_string();
    assert!(display.starts_with("Row"));
    assert!(display.contains('1'));
    assert!(display.contains('3'));

    let debug = set.debug();
    assert!(debug.starts_with("row "));
}

#[test]
fn try_from_with_shape_errors() {
    let err = HouseSet::try_from_with_shape(Shape::Row, "Z").unwrap_err();
    assert_eq!("invalid coord 'Z' for row (1st)", err.to_string());
}

#[test]
fn inverted_returns_complement() {
    assert_eq!(rows("C D E F G H J"), rows("A B").inverted());
}

#[test]
fn house_houses() {
    let house_sets = [House::all_rows(), House::all_columns(), House::all_blocks()];

    for houses in house_sets {
        let mut all = CellSet::empty();
        let label = match houses.shape() {
            Shape::Row => "Row",
            Shape::Column => "Col",
            Shape::Block => "Box",
        };

        for (i, house) in house_list(&houses).iter().enumerate() {
            assert_eq!(*house, House::new(houses.shape(), Coord::new(i as u8)));
            assert_eq!(houses.shape(), house.shape());
            assert_eq!(Coord::new(i as u8), house.coord());
            assert_eq!(i, house.usize());
            assert_eq!(format!("{} {}", label, i + 1), house.label());

            let mut house_cells = CellSet::empty();
            for c in 0..9u8 {
                let cell: Cell = house.cell(Coord::new(c));
                assert_eq!(*house, cell.house(houses.shape()));
                house_cells.add(cell);
            }
            assert_eq!(house.cells(), house_cells);

            all.union_with(house.cells());
        }

        assert_eq!(CellSet::full(), all);
    }
}

#[test]
fn house_intersect() {
    assert_eq!(cells("A1 A2 A3"), row('1').intersect(block('1')));
    assert_eq!(cells("A1 A2 A3"), row('1').intersect(block('1')));
}

#[test]
fn row_cells() {
    assert_eq!(cells("A1 A2 A3 A4 A5 A6 A7 A8 A9"), row('1').cells());
    assert_eq!(cells("B1 B2 B3 B4 B5 B6 B7 B8 B9"), row('2').cells());
    assert_eq!(cells("C1 C2 C3 C4 C5 C6 C7 C8 C9"), row('3').cells());
    assert_eq!(cells("D1 D2 D3 D4 D5 D6 D7 D8 D9"), row('4').cells());
    assert_eq!(cells("E1 E2 E3 E4 E5 E6 E7 E8 E9"), row('5').cells());
    assert_eq!(cells("F1 F2 F3 F4 F5 F6 F7 F8 F9"), row('6').cells());
    assert_eq!(cells("G1 G2 G3 G4 G5 G6 G7 G8 G9"), row('7').cells());
    assert_eq!(cells("H1 H2 H3 H4 H5 H6 H7 H8 H9"), row('8').cells());
    assert_eq!(cells("J1 J2 J3 J4 J5 J6 J7 J8 J9"), row('9').cells());
}

#[test]
fn column_cells() {
    assert_eq!(cells("A1 B1 C1 D1 E1 F1 G1 H1 J1"), col('1').cells());
    assert_eq!(cells("A2 B2 C2 D2 E2 F2 G2 H2 J2"), col('2').cells());
    assert_eq!(cells("A3 B3 C3 D3 E3 F3 G3 H3 J3"), col('3').cells());
    assert_eq!(cells("A4 B4 C4 D4 E4 F4 G4 H4 J4"), col('4').cells());
    assert_eq!(cells("A5 B5 C5 D5 E5 F5 G5 H5 J5"), col('5').cells());
    assert_eq!(cells("A6 B6 C6 D6 E6 F6 G6 H6 J6"), col('6').cells());
    assert_eq!(cells("A7 B7 C7 D7 E7 F7 G7 H7 J7"), col('7').cells());
    assert_eq!(cells("A8 B8 C8 D8 E8 F8 G8 H8 J8"), col('8').cells());
    assert_eq!(cells("A9 B9 C9 D9 E9 F9 G9 H9 J9"), col('9').cells());
}

#[test]
fn block_cells() {
    assert_eq!(cells("A1 A2 A3 B1 B2 B3 C1 C2 C3"), block('1').cells());
    assert_eq!(cells("A4 A5 A6 B4 B5 B6 C4 C5 C6"), block('2').cells());
    assert_eq!(cells("A7 A8 A9 B7 B8 B9 C7 C8 C9"), block('3').cells());
    assert_eq!(cells("D1 D2 D3 E1 E2 E3 F1 F2 F3"), block('4').cells());
    assert_eq!(cells("D4 D5 D6 E4 E5 E6 F4 F5 F6"), block('5').cells());
    assert_eq!(cells("D7 D8 D9 E7 E8 E9 F7 F8 F9"), block('6').cells());
    assert_eq!(cells("G1 G2 G3 H1 H2 H3 J1 J2 J3"), block('7').cells());
    assert_eq!(cells("G4 G5 G6 H4 H5 H6 J4 J5 J6"), block('8').cells());
    assert_eq!(cells("G7 G8 G9 H7 H8 H9 J7 J8 J9"), block('9').cells());
}

#[test]
fn columns_cross_rows() {
    let main = row('2');
    let got = main.crossing_houses(cells("B1 B2"));

    assert_eq!(cols("1 2"), got);
}

#[test]
fn rows_cross_columns() {
    let main = col('6');
    let got = main.crossing_houses(cells("C6 F6"));

    assert_eq!(rows("3 6"), got);
}
