[package]
name = "feature_detect"
version = "0.1.0"
edition = "2021"
publish = false

[dependencies]
base64 = "0.22"
image = { version = "0.24", default-features = false, features = ["png", "jpeg"] }
serde_json = "1"
