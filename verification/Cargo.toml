[package]
name = "lkpm"
version = "1.1.0"
edition = "2021"
publish = false

[dependencies]
anyhow = "1"
chrono = "0.4"
colored = "2"
flate2 = "1"
hex = "0.4"
indicatif = "0.17"
libc = "0.2"
liblk = "*"
mlua = { version = "0.10", features = ["lua54", "vendored"] }
nix = { version = "0.29", features = ["mount", "fs"] }
reqwest = { version = "0.12", default-features = false, features = ["blocking", "rustls-tls"] }
rusqlite = { version = "0.31", features = ["bundled"] }
serde = { version = "1", features = ["derive"] }
serde_json = "1"
sha2 = "0.10"
tar = "0.4"
xz2 = "0.1"
zstd = "0.13"
