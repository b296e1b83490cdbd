[package]
name = "ghost_shell"
version = "0.1.0"
edition = "2021"
publish = false

[dependencies]
unicode-segmentation = "=1.13.3"
uuid = { version = "=1.29.0", features = ["v5"] }
directories = "=6.0.0"
neo_frizbee = "=0.13.3"
serde = { version = "=1.0.229", features = ["derive"] }
serde_json = "=1.0.154"
clap = { version = "=4.6.7", features = ["derive"] }
anyhow = "=1.0.104"
tokio = { version = "=1.54.1", features = ["net", "io-util", "rt", "macros", "sync"] }
config = { version = "=0.15.27", default-features = false, features = ["toml"] }
fff-search = "*"
freedesktop-desktop-entry = "*"
freedesktop-icons = "*"
jiff = "*"
log = "*"
