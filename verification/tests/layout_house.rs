use sudoku_rust::cell_set2::{Cell, CellSet};
use sudoku_rust::layout::coord::Coord;
use sudoku_rust::layout::house::{House, Shape};

fn house_of(cell: Cell, shape: Shape) -> House {
    match shape {
        Shape::Row => House::row(Coord::new(cell.row() as u8)),
        Shape::Column => House::column(Coord::new(cell.column() as u8)),
        Shape::Block => House::block(Coord::new(cell.block() as u8)),
    }
}

#[test]
fn houses() {
    let groups = [Shape::Row, Shape::Column, Shape::Block];

    for shape in groups {
        let mut all = CellSet::empty();

        for i in 0..9u8 {
            let h = match shape {
                Shape::Row => House::row(Coord::new(i)),
                Shape::Column => House::column(Coord::new(i)),
                Shape::Block => House::block(Coord::new(i)),
            };
            assert_eq!(shape, h.shape());
            assert_eq!(Coord::new(i), h.coord());
            assert_eq!(i as usize, h.usize());

            let mut house = CellSet::empty();
            for c in 0..9u8 {
                let cell = h.cell(Coord::new(c));
                assert!(h == house_of(cell, shape));
                house.add_assign(cell);
            }
            assert_eq!(h.cells(), house);

            all.bitor_assign(h.cells());
        }

        assert_eq!(CellSet::full(), all);
    }
}

#[test]
fn row_and_block_intersect_in_three_cells() {
    let row = House::row(Coord::new(1));
    let block = House::block(Coord::new(2));
    let both = row.intersect(block);
    assert_eq!(3, both.size());
    assert!(both.has(Cell::new(15)));
    assert!(both.has(Cell::new(17)));
}
