[package]
name = "moments"
version = "0.1.0"
edition = "2021"
publish = false

[dependencies]
sha2 = "=0.10.9"
serde = { version = "1", features = ["derive"] }
tauri = { version = "2", default-features = false }
rusqlite = { version = "0.37", features = ["bundled"] }
ureq = { version = "2", default-features = false }
image = { version = "0.25", default-features = false, features = ["png", "jpeg", "webp"] }
