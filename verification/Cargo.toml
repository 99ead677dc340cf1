[package]
name = "muscat"
version = "0.1.0"
edition = "2021"
publish = false

[dependencies]
ndarray = { version = "0.16", features = ["serde"] }
num-traits = "0.2"
rayon = "1"
serde = { version = "1", features = ["derive"] }
serde_json = "1"
