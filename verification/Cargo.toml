[package]
name = "syncthing_select_sync"
version = "0.1.0"
edition = "2021"
publish = false

[dependencies]
sha2 = "0.10"
base64 = "0.22"
rand = "0.8"
uuid = { version = "1", features = ["v4", "serde"] }
chrono = "0.4"
serde = { version = "1", features = ["derive"] }
serde_json = "1"
rusqlite = "0.31"
axum = "0.7"
tokio = { version = "1", features = ["full"] }
tower = "0.4"
tower-sessions = "0.13"
http = "1"
reqwest = { version = "0.12", default-features = false, features = ["json", "cookies", "rustls-tls"] }
dirs = "5"
notify = "6"
colored = "2"
winapi = { version = "0.3", features = ["fileapi", "winnt"] }
