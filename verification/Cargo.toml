[package]
name = "textkit"
version = "0.1.0"
edition = "2021"
publish = false

[dependencies]
markdown = "1"
regex = "1"
ropey = { version = "2.0.0-beta.1", features = ["metric_lines_lf", "metric_utf16"] }
unicode-segmentation = "1"
