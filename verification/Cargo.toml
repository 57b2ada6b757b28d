[package]
name = "mesh_messenger"
version = "0.1.0"
edition = "2021"
publish = false

[dependencies]
aes-gcm = "0.10"
base64 = "0.22"
chrono = { version = "0.4", default-features = false, features = ["alloc", "clock"] }
dirs = "6"
eframe = { version = "0.29", default-features = false, features = ["default_fonts", "glow", "x11"] }
rand = "0.8"
serde = { version = "1", features = ["derive"] }
serde_json = "1"
sha2 = "0.10"
x25519-dalek = { version = "2", features = ["static_secrets"] }
