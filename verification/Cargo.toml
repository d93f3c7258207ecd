[package]
name = "erudaite_core"
version = "0.1.0"
edition = "2021"
publish = false

[dependencies]
serde_json = "*"
serde = { version = "*", features = ["derive"] }
reqwest = { version = "*", default-features = false, features = ["json", "stream", "rustls-tls"] }
futures-util = "*"
arboard = "*"
enigo = "*"
