pub mod digit;
pub mod digit_set;
pub mod known;
pub mod known_set;
pub mod value;
