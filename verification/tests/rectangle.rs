use sudoku_rust::layout::cells::cell::Cell;
use sudoku_rust::layout::cells::cell_set::CellSet;
use sudoku_rust::layout::cells::rectangle::Rectangle;

fn cell(label: &str) -> Cell {
    Cell::try_from(label).unwrap()
}

#[test]
fn new_fills_in_the_other_corners() {
    let r = Rectangle::new(cell("A1"), cell("D7"));

    assert_eq!(cell("A7"), r.top_right);
    assert_eq!(cell("D1"), r.bottom_left);
    assert_eq!(CellSet::from("A1 A7 D1 D7"), r.cells);
    assert_eq!(4, r.block_count);
    assert_eq!("R14C17", r.to_string());
    assert_eq!("Rectangle(A1 D7)", r.debug());
}

#[test]
fn block_counts() {
    assert_eq!(1, Rectangle::new(cell("A1"), cell("B2")).block_count);
    assert_eq!(2, Rectangle::new(cell("A1"), cell("B5")).block_count);
    assert_eq!(2, Rectangle::new(cell("A1"), cell("E2")).block_count);
    assert_eq!(4, Rectangle::new(cell("A1"), cell("E5")).block_count);
}

#[test]
fn from_orders_any_four_corners() {
    let r = Rectangle::from(cell("D7"), cell("A7"), cell("D1"), cell("A1"));
    assert_eq!(Rectangle::new(cell("A1"), cell("D7")), r);
}

#[test]
fn with_origin_flips_the_corners() {
    let r = Rectangle::new(cell("A1"), cell("D7"));

    let flipped = r.with_origin(cell("D7"));
    assert_eq!(cell("D7"), flipped.top_left);
    assert_eq!(cell("A1"), flipped.bottom_right);
    assert_eq!(r.cells, flipped.cells);

    let flipped = r.with_origin(cell("A7"));
    assert_eq!(cell("A7"), flipped.top_left);
    assert_eq!(cell("D1"), flipped.bottom_right);

    let flipped = r.with_origin(cell("D1"));
    assert_eq!(cell("D1"), flipped.top_left);
    assert_eq!(cell("A7"), flipped.bottom_right);

    assert_eq!(r, r.with_origin(cell("A1")));
    assert_eq!(r, r.with_origin(cell("E5")));
}

#[test]
fn try_from_needs_two_rows_and_two_columns() {
    assert_eq!(
        Ok(Rectangle::new(cell("A1"), cell("D7"))),
        Rectangle::try_from(CellSet::from("A1 A7 D1 D7"))
    );
    assert_eq!(
        Ok(Rectangle::new(cell("A1"), cell("D7"))),
        Rectangle::try_from(CellSet::from("A7 D1 D7"))
    );
    assert_eq!(Err(()), Rectangle::try_from(CellSet::from("A1 B2 C3")));
    assert_eq!(Err(()), Rectangle::try_from(CellSet::from("A1")));
    assert_eq!(
        Ok(Rectangle::new(cell("B2"), cell("C3"))),
        Rectangle::try_from_cells(vec![cell("C3"), cell("B2"), cell("B3")])
    );
}

#[test]
fn iter_walks_every_two_block_rectangle() {
    let mut iter = Rectangle::iter();
    let first = iter.next().unwrap();
    assert_eq!(Rectangle::new(cell("A1"), cell("B4")), first);

    let mut count = 1;
    while let Some(r) = iter.next() {
        assert_eq!(2, r.block_count);
        count += 1;
    }
    assert_eq!(486, count);
    assert_eq!(None, iter.next());
}
