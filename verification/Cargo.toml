[package]
name = "runix_update"
version = "0.1.0"
edition = "2021"
publish = false

[dependencies]
anyhow = "=1.0.104"
base64 = "=0.22.1"
clap = { version = "=4.6.7", features = ["derive"] }
composefs = "=0.4.0"
ed25519-dalek = "=2.2.0"
fastcdc = "=3.2.1"
hex = "=0.4.3"
rustix = { version = "=1.1.6", features = ["fs", "mount", "process"] }
serde = { version = "=1.0.229", features = ["derive"] }
serde_json = "=1.0.154"
sha2 = "=0.10.9"
tokio = { version = "1", features = ["rt-multi-thread"] }
ureq = { version = "=2.12.1", features = ["json"] }
