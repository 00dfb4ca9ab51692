[package]
name = "adb_sync"
version = "0.1.0"
edition = "2021"
publish = false

[dependencies]
base64 = "0.22"
bincode = { version = "2", features = ["serde"] }
byteorder = "1"
log = "0.4"
num-bigint = "0.4"
rand = "0.9"
rusb = "0.9"
serde = { version = "1", features = ["derive"] }
tauri = { version = "2", default-features = false }
