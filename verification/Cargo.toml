[package]
name = "zerowire"
version = "0.4.0"
edition = "2021"
publish = false

[dependencies]
anyhow = "1"
clap = { version = "4", default-features = false, features = ["std", "help", "usage", "error-context", "derive"] }
ed25519-dalek = { version = "2", default-features = false, features = ["std", "pkcs8"] }
egui = { version = "0.29", default-features = false, features = ["default_fonts"] }
env_logger = { version = "0.11", default-features = false }
hkdf = "0.12"
libc = "0.2"
local-ip-address = "0.6"
log = "0.4"
mdns-sd = { version = "0.11", default-features = false }
qrcode = { version = "0.14", default-features = false }
rand = "0.8"
rcgen = { version = "0.13", default-features = false, features = ["crypto", "ring"] }
rustls = { version = "0.23", default-features = false, features = ["ring", "std"] }
serde = { version = "1", features = ["derive"] }
serde_json = "1"
sha2 = "0.10"

[dev-dependencies]
hex = "0.4"
