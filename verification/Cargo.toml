[package]
name = "len"
version = "0.1.0"
edition = "2021"
publish = false

[dependencies]
chumsky = { version = "*", default-features = false, features = ["std"] }
num = "0.4"
thiserror = "1"
tracing = "0.1"
tracing-error = "0.2"
tracing-subscriber = { version = "0.3", features = ["env-filter"] }
color-eyre = "0.6"
eyre = "0.6"
wasm-bindgen = "0.2"
