[package]
name = "csv_snake"
version = "0.1.0"
edition = "2021"
publish = false

[dependencies]
csv = "1"
tabwriter = "1"
