[package]
name = "printer_monitor"
version = "0.1.0"
edition = "2021"
publish = false

[dependencies]
regex = "1"
base64 = "0.22"
serde = { version = "1", features = ["derive"] }
serde_json = "1"
rusqlite = { version = "*", features = ["bundled"] }
serialport = { version = "4", default-features = false }
parking_lot = "0.12"
once_cell = "1"
dirs = "5"
local-ip-address = "0.6"
log = "0.4"
futures = "0.3"
tokio = { version = "1", features = ["rt-multi-thread", "macros", "net", "time"] }
axum = "0.7"
