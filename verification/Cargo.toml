[package]
name = "rstest-bdd-macros"
version = "0.1.0"
edition = "2021"
publish = false

[dependencies]
gherkin = "*"
syn = { version = "2", features = ["full", "extra-traits"] }
quote = "1"
proc-macro2 = "1"
walkdir = "2"
cap-std = "*"
libc = "0.2"
