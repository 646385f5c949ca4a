[package]
name = "piano"
version = "0.1.0"
edition = "2021"
publish = false

[dependencies]
midly = "0.5"
hound = "3.5"
serde = { version = "1", features = ["derive"] }
serde_json = "1"
wasm-bindgen = "0.2"
cpal = "0.15"
midir = "0.10"
