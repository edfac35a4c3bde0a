[package]
name = "succession"
version = "0.1.0"
edition = "2021"
publish = false

[dependencies]
actix-rt = "=1.1.1"
actix-web = "3"
csv = "=1.4.0"
mysql = "=17.0.0"
serde = { version = "=1.0.229", features = ["derive"] }
