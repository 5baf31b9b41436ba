[package]
name = "csd_jwt"
version = "0.1.0"
edition = "2021"
publish = false

[dependencies]
ark-bls12-381 = "=0.4.0"
ark-bn254 = "=0.4.0"
ark-ec = "=0.4.2"
ark-ff = "=0.4.2"
ark-serialize = "=0.4.2"
base64 = "=0.21.7"
josekit = "=0.8.7"
json-pointer = "=0.3.4"
multibase = "=0.9.3"
rand = "=0.8.8"
sd-jwt-payload = "=0.2.1"
serde = { version = "=1.0.229", features = ["derive"] }
serde_json = { version = "=1.0.154", features = ["preserve_order"] }
sha3 = "=0.10.9"
strum = { version = "=0.25.0", features = ["derive"] }
thiserror = "=1.0.69"
vb_accumulator = "=0.29.0"
