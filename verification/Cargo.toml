[package]
name = "gkr_claims"
version = "0.1.0"
edition = "2021"
publish = false

[dependencies]
halo2curves = "=0.6.1"
rand = "0.8"
serde = { version = "1", features = ["derive"] }
serde_json = "1"
