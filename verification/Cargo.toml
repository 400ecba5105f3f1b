[package]
name = "keystonelight"
version = "0.1.0"
edition = "2021"
publish = false

[dependencies]
base64 = "0.22"
fs2 = "0.4"
libc = "0.2"
nix = { version = "0.29", features = ["signal"] }
serde = { version = "1", features = ["derive"] }
serde_json = "1"
signal-hook = "0.3"
thiserror = "1"
