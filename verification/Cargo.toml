[package]
name = "osi_substrait"
version = "0.1.0"
edition = "2021"
publish = false

[dependencies]
serde = { version = "=1.0.229", features = ["derive"] }
serde_json = "=1.0.154"
serde_yaml = "=0.9.34"
thiserror = "=2.0.21"
prost = "=0.14.4"
substrait = { version = "=0.65.0", features = ["protox"] }
