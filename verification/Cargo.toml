[package]
name = "steven"
version = "0.1.0"
edition = "2021"
publish = false

[dependencies]
byteorder = "=1.5.0"
rustc-serialize = "=0.3.25"
serde_json = "=1.0.154"
log = "=0.4.35"
flate2 = "=1.1.10"
openssl = "0.10"
reqwest = { version = "0.12", default-features = false, features = ["blocking", "native-tls"] }
rand = "0.8"
rsa_public_encrypt_pkcs1 = "*"
