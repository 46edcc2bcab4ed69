[package]
name = "phi3_mixed_quant"
version = "0.1.0"
edition = "2021"
publish = false

[dependencies]
anyhow = "1"
bytemuck = "1"
candle-core = "0.9"
candle-nn = "0.9"
candle-transformers = "0.9"
half = "2"
hf-hub = { version = "0.4", default-features = false, features = ["ureq", "rustls-tls"] }
safetensors = "0.7"
serde = { version = "1", features = ["derive"] }
serde_json = "1"
shellexpand = "3"
tokenizers = { version = "0.21", default-features = false, features = ["onig"] }
