[package]
name = "cluster_crypto"
version = "0.1.0"
edition = "2021"
publish = false

[dependencies]
pem = "*"
rsa = "*"
sec1 = "*"
anyhow = "*"
tokio = { version = "*", features = ["fs"] }

[dev-dependencies]
rand = "0.8"
