pub mod format;
pub mod numbers;
pub mod parse;
pub mod print;
pub mod round_trip;
