[package]
name = "secure_ssh"
version = "0.1.0"
edition = "2021"
publish = false

[dependencies]
argon2 = "0.5"
chacha20poly1305 = "0.10"
rand = "0.8"
ed25519-dalek = "2"
base64 = "0.22"
zeroize = "1"
libc = "0.2"
serde = { version = "1", features = ["derive"] }
serde_json = "1"
thiserror = "1"
clap = { version = "4", features = ["derive"] }
colored = "2"
rpassword = "7"
russh = "0.45"
russh-keys = "0.45"
tokio = { version = "1", features = ["full"] }
crossterm = "0.28"
async-trait = "0.1"
