[package]
name = "set_desto"
version = "0.1.0"
edition = "2021"
publish = false

[dependencies]
anyhow = "1"
base64 = "0.22"
clap = { version = "4", default-features = false, features = ["std", "derive", "help"] }
directories = "6"
eframe = { version = "0.31", default-features = false, features = ["glow", "x11"] }
keyring = "3"
rand = "0.8"
reqwest = { version = "0.12", default-features = false, features = ["blocking", "json", "native-tls"] }
serde = { version = "1", features = ["derive"] }
serde_json = "1"
sha2 = "0.10"
tracing = "0.1"
tracing-subscriber = { version = "0.3", default-features = false, features = ["fmt", "std"] }
url = "2"
webbrowser = "1"
zip = { version = "2", default-features = false, features = ["deflate"] }
