[package]
name = "dotedit"
version = "0.1.0"
edition = "2021"
publish = false

[dependencies]
orfail = "=1.1.0"
pagurus = { version = "=0.7.4", features = ["image"] }
pati = "=0.2.0"
serde = { version = "=1.0.229", features = ["derive"] }
serde_json = "=1.0.154"
uuid = { version = "=1.29.0", features = ["v4", "serde"] }
