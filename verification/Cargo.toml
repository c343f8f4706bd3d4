[package]
name = "naivecoin"
version = "0.1.0"
edition = "2021"
publish = false

[dependencies]
sha2 = "=0.11.1"
hex = "=0.4.3"
secp256k1 = "=0.31.1"
num-bigint = "=0.4.8"
serde_json = "=1.0.154"
chrono = { version = "=0.4.45", default-features = false, features = ["now"] }
