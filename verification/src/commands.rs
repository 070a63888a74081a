pub mod deduction_merge;
pub mod play_core;
pub mod tui;
pub mod tui_text;
pub mod solve;
pub mod bingo;
pub mod tui_layout;
pub mod find;
pub mod history;
