[package]
name = "dx_styles"
version = "0.1.0"
edition = "2021"
publish = false

[dependencies]
colored = "=3.1.1"
flatbuffers = "=25.12.19"
notify = "=8.2.0"
oxc_allocator = "0.72"
oxc_ast = "0.72"
oxc_parser = "0.72"
oxc_span = "0.72"
serde = { version = "=1.0.229", features = ["derive"] }
toml = "=1.1.8"
walkdir = "=2.5.0"
