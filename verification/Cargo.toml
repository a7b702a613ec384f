[package]
name = "edge_ingest"
version = "0.1.0"
edition = "2021"
publish = false

[dependencies]
flate2 = "*"
serde_json = "*"
rayon = "*"
nng = "*"
reqwest = { version = "*", default-features = false, features = ["blocking"] }

[dev-dependencies]
rmp-serde = "*"
serde = "*"
