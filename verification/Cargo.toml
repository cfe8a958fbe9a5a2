[package]
name = "matchbox"
version = "0.1.0"
edition = "2021"
publish = false

[dependencies]
syn = { version = "2", features = ["full", "fold", "extra-traits"] }
quote = "1"
proc-macro2 = "1"

[dev-dependencies]
prettyplease = "0.2"
