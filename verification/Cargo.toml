[package]
name = "cookbook"
version = "0.1.0"
edition = "2021"
publish = false

[dependencies]
chrono = "=0.4.45"
serde = { version = "=1.0.229", features = ["derive"] }
serde_yaml = "=0.9.34"
serde_json = "=1.0.154"
toml = "=0.8.23"
dirs = "=5.0.1"
jni = "=0.21.1"
log = "=0.4.35"
thiserror = "=1.0.69"
once_cell = "=1.21.4"
android_logger = "0.13"
gettext-rs = "0.7"
