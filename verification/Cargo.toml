[package]
name = "dugout"
version = "0.1.0"
edition = "2021"
publish = false

[dependencies]
age = { version = "=0.11.5", features = ["armor"] }
sha2 = "=0.10.9"
base64 = "=0.21.7"
bech32 = "=0.9.1"
x25519-dalek = "=2.0.1"
zeroize = "=1.9.1"
serde = { version = "=1.0.229", features = ["derive"] }
serde_json = "=1.0.154"
toml = "=0.8.23"
thiserror = "=1.0.69"
clap = { version = "=4.6.7", features = ["derive"] }
dirs = "=5.0.1"
which = "=6.0.3"
tracing = "=0.1.44"
tracing-subscriber = { version = "=0.3.23", features = ["env-filter"] }

[dev-dependencies]
tempfile = "=3.27.0"
