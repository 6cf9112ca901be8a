[package]
name = "wasmium_pdk"
version = "0.1.0"
edition = "2021"
publish = false

[dependencies]
rmp-serde = "1"
serde = "1"
paste = "1"
syn = { version = "2", features = ["full"] }
quote = "1"
proc-macro2 = "1"
