[package]
name = "aircard"
version = "1.2.2"
edition = "2021"
publish = false

[dependencies]
anyhow = "1"
eframe = { version = "0.31", default-features = false, features = ["glow", "default_fonts"] }
egui = { version = "0.31", default-features = false }
image = { version = "0.25", default-features = false, features = ["png", "jpeg", "webp"] }
native-tls = "0.2"
plist = "1"
rcgen = { version = "0.14", features = ["x509-parser"] }
regex = "1"
rfd = { version = "0.15", default-features = false, features = ["xdg-portal", "async-std"] }
rsa = "0.9"
rustls = { version = "0.23", default-features = false, features = ["ring", "std", "tls12"] }
rustls-pemfile = "2"
serde = { version = "1", features = ["derive"] }
serde_json = "1"
uuid = { version = "1", features = ["v4"] }
x509-parser = "0.18"

[dev-dependencies]
base64 = "0.22"
