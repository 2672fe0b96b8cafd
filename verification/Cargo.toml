[package]
name = "atuin_client"
version = "0.1.0"
edition = "2021"
publish = false

[dependencies]
eyre = "=0.6.14"
futures = "=0.3.34"
indicatif = "=0.18.6"
rmp-serde = "=1.3.1"
serde = { version = "=1.0.229", features = ["derive"] }
serde_json = "=1.0.154"
thiserror = "=2.0.21"
uuid = { version = "=1.29.0", features = ["serde", "v7"] }
zstd = "=0.13.4"

[dev-dependencies]
base64 = "=0.22.1"
rusty_paseto = { version = "=0.7.2", default-features = false, features = ["v4_local"] }
