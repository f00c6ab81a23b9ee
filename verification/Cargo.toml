[package]
name = "oxc_front"
version = "0.1.0"
edition = "2021"
publish = false

[dependencies]
ignore = "=0.4.33"
oxc_allocator = "0.4"
oxc_diagnostics = "0.4"
oxc_span = "0.4"
rayon = "=1.12.0"
serde = { version = "=1.0.229", features = ["derive"] }
serde_json = "=1.0.154"
