//! Provides [`Known`] and [`KnownSet`] to track collections of knowns and methods to manipulate them.
pub mod known;
pub mod set;
