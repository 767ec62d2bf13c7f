[package]
name = "umbral"
version = "0.1.0"
edition = "2021"
publish = false

[dependencies]
serde = { version = "1", features = ["derive"] }
serde_json = "1"
directories = "*"
gtk4 = "*"
libadwaita = { version = "*", features = ["v1_5"] }
async-channel = "*"
reqwest = { version = "*", default-features = false, features = ["json", "rustls-tls"] }
tokio = { version = "1", features = ["rt", "net", "time"] }
rumqttd = "*"
gettext-rs = "*"
config = { version = "*", default-features = false, features = ["toml"] }
