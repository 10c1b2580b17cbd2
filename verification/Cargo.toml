[package]
name = "lemonyde"
version = "2.0.0"
edition = "2021"
publish = false

[dependencies]
gtk4 = { version = "=0.9.7", features = ["v4_14"] }
libadwaita = { version = "=0.7.2", features = ["v1_5"] }
glib = "=0.20.12"
gio = "=0.20.12"
serde_json = "=1.0.154"
dirs = "=5.0.1"
async-channel = "=2.5.0"
image = { version = "=0.25.10", default-features = false, features = ["png", "jpeg", "gif", "webp", "bmp", "ico"] }
