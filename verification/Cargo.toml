[package]
name = "souls_client"
version = "0.4.0"
edition = "2021"
publish = false

[dependencies]
bimap = "0.6.3"
chrono = "0.4.45"
eldenring = "*"
erased-serde = "0.4"
fromsoftware-shared = "*"
futures-util = "0.3"
hex_color = "3.0.0"
log = "0.4"
pelite = "*"
rand = "0.10.3"
reqwest = { version = "0.12", default-features = false, features = ["json", "rustls-tls"] }
serde = { version = "1", features = ["derive"] }
serde_json = "1"
tokio = { version = "1", features = ["macros", "rt-multi-thread", "sync", "time"] }
tokio-tungstenite = { version = "0.28", features = ["rustls-tls-webpki-roots"] }
