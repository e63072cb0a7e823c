[package]
name = "pqcrypt"
version = "0.1.0"
edition = "2021"
publish = false

[dependencies]
anyhow = "1"
async-trait = "0.1"
base64 = "0.22"
chacha20poly1305 = { version = "0.10", features = ["stream"] }
clap = { version = "4", features = ["derive"] }
dirs = "*"
futures = "0.3"
hpke = "*"
openssh = { version = "*", features = ["native-mux"] }
openssh-sftp-client = { version = "*", features = ["openssh"] }
rand = "0.8"
serde = { version = "1", features = ["derive"] }
serde_json = "1"
thiserror = "*"
tokio = { version = "1", features = ["full"] }
uuid = { version = "1", features = ["v4"] }
zeroize = "1"
