pub mod bit;
pub mod cell;
pub mod cell_set;
pub mod peer_set;
pub mod rectangle;
pub mod set;
