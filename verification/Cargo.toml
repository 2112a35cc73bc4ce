[package]
name = "verilog_sheet"
version = "0.1.0"
edition = "2021"
publish = false

[dependencies]
regex = "1"
rust_decimal = { version = "1", features = ["maths"] }
calamine = "*"
clap = { version = "4", features = ["derive"] }
colored = "*"
log = "0.4"
rust_xlsxwriter = "*"
simple_logger = "*"
sv-parser = "*"
walkdir = "2"
