[package]
name = "render_wasm"
version = "0.1.0"
edition = "2021"
publish = false

[dependencies]
uuid = "1"
skia-safe = { version = "*", features = ["gl", "svg", "textlayout"] }
