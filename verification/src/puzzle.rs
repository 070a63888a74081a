pub mod action;
