[package]
name = "rusttab"
version = "0.1.0"
edition = "2021"
publish = false

[dependencies]
plotters = { version = "*", default-features = false, features = ["svg_backend", "line_series"] }
