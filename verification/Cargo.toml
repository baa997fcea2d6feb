[package]
name = "driver_doctor"
version = "0.1.0"
edition = "2021"
publish = false

[dependencies]
serde = { version = "1", features = ["derive"] }
serde_json = "1"
toml = "0.8"
dirs = "5"
chrono = "0.4"
egui = "0.31"
open = "5"
reqwest = { version = "0.12", default-features = false, features = ["json", "rustls-tls"] }
tokio = { version = "1", features = ["rt-multi-thread", "time", "macros"] }
rayon = "1"
fs2 = "0.4"
winapi = { version = "0.3", features = ["fileapi", "shellapi", "winnt", "winuser", "wingdi", "windef"] }
