[package]
name = "sudoku-rust"
version = "1.0.0"
edition = "2021"
publish = false

[dependencies]
clap = { version = "4", features = ["derive"] }
ctrlc = "3"
colored = "2"

[dev-dependencies]
rand = "0.8"
