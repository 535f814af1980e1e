[package]
name = "serbia"
version = "0.1.0"
edition = "2021"
publish = false

[dependencies]
syn = { version = "=1.0.109", features = ["full", "extra-traits"] }
quote = "=1.0.47"
proc-macro2 = "=1.0.107"
unicode-ident = "=1.0.27"

[dev-dependencies]
serde = "=1.0.229"
serde_json = "=1.0.154"
serde_yaml = "=0.8.26"
