[package]
name = "pastebin"
version = "0.1.0"
edition = "2021"
publish = false

[dependencies]
rand = "0.8"
actix-web = "4"
argh = "0.1"
serde = { version = "1", features = ["derive"] }
