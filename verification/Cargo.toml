[package]
name = "unit_selection"
version = "0.1.0"
edition = "2021"
publish = false

[dependencies]
nalgebra = { version = "*", default-features = false, features = ["std"] }
specs = { version = "*", default-features = false }
