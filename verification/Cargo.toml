[package]
name = "live_search"
version = "0.1.0"
edition = "2021"
publish = false

[dependencies]
atty = "0.2"
crossbeam = "0.8"
crossterm = "0.25"
fuzzy-matcher = "0.3"
ignore = "0.4"
tantivy = "0.19"
tempfile = "3"
tui = "0.19"
unicode-width = "0.1"
