[package]
name = "stub_pipeline"
version = "0.1.0"
edition = "2021"
publish = false

[dependencies]
camino = "=1.2.6"
eetf = "=0.12.0"
lsp-types = "=0.97.0"
parking_lot = "=0.12.5"
ra_ap_paths = "=0.0.300"
ra_ap_vfs = "=0.0.300"
rowan = "=0.17.0"
serde = { version = "=1.0.229", features = ["derive"] }
serde_json = "=1.0.154"
