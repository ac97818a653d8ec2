[package]
name = "jrn"
version = "0.1.0"
edition = "2021"
publish = false

[dependencies]
aes-gcm-siv = "=0.11.1"
argh = "=0.1.19"
base64 = "=0.22.1"
bcrypt = "=0.15.1"
chrono = "=0.4.45"
color-print = "=0.3.7"
enum-display = "=0.1.4"
enum-utils = "=0.1.2"
pbkdf2 = "=0.12.2"
rand = { version = "=0.8.8", features = ["min_const_gen"] }
requestty = "=0.5.0"
serde = { version = "=1.0.229", features = ["derive"] }
serde_json = "=1.0.154"
sha2 = "=0.10.9"
toml = "=0.8.23"
