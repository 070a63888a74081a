pub mod coord;
pub mod coord_set;
pub mod house;
pub mod house_set;
pub mod shape;
