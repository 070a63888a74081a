pub mod actions;
pub mod effects;
pub mod errors;
