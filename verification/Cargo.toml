[package]
name = "tracer"
version = "0.1.0"
edition = "2021"
publish = false

[dependencies]
rand = { version = "=0.8.8", features = ["small_rng"] }
rayon = "=1.12.0"
serde = "=1.0.229"
serde_derive = "=1.0.229"
toml = "=0.8.23"
image = { version = "=0.24.9", default-features = false, features = ["jpeg", "png"] }
