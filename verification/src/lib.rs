pub mod bits;
pub mod commands;
pub mod board;
pub mod cell_set;
pub mod cell_set2;
pub mod coord_set;
pub mod effects;
pub mod packed;
pub mod text;
pub mod io;
pub mod known_set;
pub mod layout;
pub mod puzzle;
pub mod printers;
