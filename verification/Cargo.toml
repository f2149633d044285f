[package]
name = "pkg"
version = "0.3.0"
edition = "2021"
publish = false

[dependencies]
ed25519-dalek = "=2.2.0"
hex = { version = "=0.4.3", features = ["serde"] }
libc = "=0.2.191"
pkgar = "=0.2.2"
pkgar-core = "=0.2.2"
reqwest = { version = "=0.12.28", default-features = false, features = ["blocking"] }
serde = { version = "=1.0.229", features = ["derive"] }
serde_derive = "=1.0.229"
thiserror = "=2.0.21"
toml = "=0.8.23"

[dev-dependencies]
pkgar-keys = "=0.2.2"
