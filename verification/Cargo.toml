[package]
name = "ciid"
version = "0.1.0"
edition = "2021"
publish = false

[dependencies]
sha2 = "*"
data-encoding = "*"
serde = { version = "*", features = ["derive"] }
serde_json = "*"
clap = "*"
image = { version = "*", default-features = false, features = ["jpeg"] }
