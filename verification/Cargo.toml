[package]
name = "securefolders"
version = "0.1.0"
edition = "2021"
publish = false

[dependencies]
aes-gcm = "0.10"
argon2 = "0.5"
hmac = "0.12"
sha2 = "0.10"
rand = "0.8"
totp-rs = { version = "5", features = ["qr", "gen_secret"] }
uuid = { version = "1", features = ["v4", "serde"] }
chrono = { version = "0.4", features = ["serde"] }
serde = { version = "1", features = ["derive"] }
serde_json = "1"
thiserror = "1"
zeroize = "1"
zip = { version = "2", default-features = false, features = ["deflate"] }
log = "0.4"
mslnk = "0.1"
