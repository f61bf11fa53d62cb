[package]
name = "homelab_utils"
version = "0.1.0"
edition = "2021"
publish = false

[dependencies]
rusqlite = { version = "*", features = ["bundled"] }
chacha20poly1305 = "0.10"
keyring = "*"
directories = "*"
which = "*"
shell-words = "1"
mac_oui = { version = "*", features = ["with-db"] }
serde = { version = "1", features = ["derive"] }
serde_json = "1"
tokio = { version = "1", features = ["full"] }
tokio-rustls = { version = "0.26", default-features = false, features = ["ring", "tls12", "logging"] }
mdns-sd = "*"
dns-lookup = "*"
local-ip-address = "*"
clap = { version = "4", features = ["derive"] }
anyhow = "1"
arboard = "*"
thiserror = "*"
