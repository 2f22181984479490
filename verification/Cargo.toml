[package]
name = "cortex-tensor"
version = "0.1.0"
edition = "2021"
publish = false

[dependencies]
half = "=2.7.1"
memmap2 = "=0.9.12"
neuromod = "=0.4.0"
rand = "=0.10.3"
serde = { version = "=1.0.229", features = ["derive"] }
serde_json = "=1.0.154"
thiserror = "=2.0.21"
