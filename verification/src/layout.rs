pub mod board;
pub mod cells;
pub mod coord;
pub mod coords;
pub mod house;
pub mod houses;
pub mod knowns;
pub mod values;
