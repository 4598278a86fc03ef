[package]
name = "wasmtime-wasi-keyvalue-redb"
version = "0.1.0"
edition = "2021"
publish = false

[dependencies]
redb = "=4.4.0"
wasmtime = { version = "=46.0.3", default-features = false, features = ["component-model", "runtime", "std"] }

[dev-dependencies]
tempfile = "=3.27.0"
