[package]
name = "sn_dbc"
version = "0.1.0"
edition = "2021"
publish = false

[dependencies]
blsttc = "=8.0.2"
serde = { version = "=1.0.229", features = ["derive"] }
tiny-keccak = { version = "*", features = ["sha3"] }
