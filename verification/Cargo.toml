[package]
name = "gyu_bitcoin"
version = "0.1.0"
edition = "2021"
publish = false

[dependencies]
libsecp256k1 = "=0.7.2"
sha2 = "=0.11.0"
ripemd = "*"
hmac = "=0.13.0"
pbkdf2 = "=0.13.0"
base58 = "=0.2.0"
bech32 = "=0.9.1"
rand = "=0.8.8"

[dev-dependencies]
hex = "=0.4.3"
