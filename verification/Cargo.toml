[package]
name = "sheetview"
version = "0.1.0"
edition = "2021"
publish = false

[dependencies]
csv = "1"
regex = "1"
calamine = "*"
rust_xlsxwriter = "*"
arboard = { version = "3", default-features = false }
crossterm = "*"
ratatui = "*"
clap = { version = "4", features = ["derive"] }
