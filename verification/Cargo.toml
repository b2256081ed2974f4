[package]
name = "fallegji"
version = "0.1.0"
edition = "2021"
publish = false

[dependencies]
anyhow = "1"
sha2 = "0.10"
chacha20poly1305 = "0.10"
lz4_flex = "0.11"
x25519-dalek = { version = "2", features = ["static_secrets"] }
hkdf = "0.12"
getrandom = "0.3"
hex = "0.4"
time = "0.3"
serde = { version = "1", features = ["derive"] }
serde_json = "1"
toml = "0.8"
tokio = { version = "1", features = ["full"] }
tokio-util = "0.7"
rusqlite = { version = "*", features = ["bundled", "serialize"] }
ratatui = "0.29"
crossterm = "0.28"
regex = "1"
lazy_static = "1"
if-addrs = "*"
nix = { version = "*", features = ["user"] }
