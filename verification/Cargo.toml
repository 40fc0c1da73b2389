[package]
name = "wasm_os"
version = "0.1.0"
edition = "2021"
publish = false

[dependencies]
tinywasm = "=0.8.0"
rand = { version = "=0.8.8", default-features = false, features = ["small_rng"] }
pc-keyboard = "=0.7.0"
spin = "=0.9.9"
lazy_static = "=1.5.1"
breadcrumbs = "=0.1.5"
x86_64 = { version = "=0.15.5", default-features = false, features = ["instructions"] }
