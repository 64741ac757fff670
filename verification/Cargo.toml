[package]
name = "ruvnc_viewer"
version = "0.1.0"
edition = "2021"
publish = false

[dependencies]
chrono = { version = "0.4", default-features = false, features = ["clock", "std", "serde"] }
uuid = { version = "1", features = ["v4"] }
fluent-bundle = "0.15"
intl-memoizer = "0.5"
unic-langid = "0.9"
serde = { version = "1", features = ["derive"] }
serde_json = "1"
dirs = "5"
keyring = "3"
thiserror = "1"
log = "0.4"
env_logger = { version = "0.11", default-features = false }
once_cell = "1"
sys-locale = "0.3"
egui = { version = "0.29", default-features = false }
reqwest = { version = "0.12", default-features = false }
tokio = { version = "1", features = ["rt"] }
cxx = "1"
