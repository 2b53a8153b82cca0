[package]
name = "generic_visitor"
version = "0.1.0"
edition = "2021"
publish = false

[dependencies]
syn = { version = "2", features = ["full", "extra-traits"] }
quote = "1"
proc-macro2 = "1"
darling = "0.20"
itertools = "0.13"
derive-visitor = "0.4"
