[package]
name = "lisplens"
version = "0.1.0"
edition = "2021"
publish = false

[dependencies]
lispexp = "=0.7.0"
lispexp-emacs = "=0.2.0"
serde_json = "=1.0.154"
tempfile = "=3.27.0"
unicode-width = "=0.2.3"
xxhash-rust = { version = "=0.8.19", features = ["xxh3"] }
