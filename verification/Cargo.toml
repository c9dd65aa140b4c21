[package]
name = "fractal_tribute"
version = "0.1.0"
edition = "2021"
publish = false

[dependencies]
base64 = "=0.21.7"
ethers-core = "=2.0.14"
hdi = "=0.8.1"
hdk = "=0.7.1"
holochain_serialized_bytes = "=0.0.57"
image = { version = "=0.23.14", default-features = false, features = ["png"] }
once_cell = "=1.21.4"
serde = { version = "=1.0.228", features = ["derive"] }
serde_json = "=1.0.154"
