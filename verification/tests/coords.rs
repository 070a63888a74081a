use sudoku_rust::cell_set2::{Cell, CellSet};
use sudoku_rust::layout::coord::Coord;
use sudoku_rust::layout::coords::{Block, Column, Row};

#[test]
fn rows_columns_and_blocks_find_their_cells() {
    let row = Row::new(3);
    let column = Column::new(4);
    let block = Block::new(4);

    assert_eq!(3, row.coord());
    assert_eq!(4, column.usize());
    assert_eq!(31, row.cell(column).value());
    assert_eq!(31, column.cell(row).value());
    assert_eq!(40, block.cell(4).value());
    assert_eq!(63, Block::new(6).cell(3).value());

    assert_eq!(9, row.cells().size());
    assert!(row.cells().has(Cell::new(27)));
    assert!(column.cells().has(Cell::new(76)));
    assert!(block.cells().has(Cell::new(50)));
    assert!(!block.cells().has(Cell::new(51)));

    let mut all = CellSet::empty();
    for i in 0..9 {
        all.bitor_assign(Block::new(i).cells());
    }
    assert!(all.is_full());
}

#[test]
fn coords_hold_their_number() {
    let coord = Coord::new(7);
    assert_eq!(7, coord.u8());
    assert_eq!(7, coord.u32());
    assert_eq!(7, coord.usize());
}
