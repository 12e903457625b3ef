[package]
name = "ember-cpu-miner"
version = "0.1.0"
edition = "2021"
publish = false

[dependencies]
ctrlc = "3"
hex = "0.4"
num_cpus = "1"
rand = "0.8"
reqwest = { version = "0.12", default-features = false, features = ["blocking", "json", "rustls-tls"] }
serde = { version = "1", features = ["derive"] }
tiny-keccak = { version = "2", features = ["keccak"] }
