[package]
name = "sherlock"
version = "0.1.0"
edition = "2021"
publish = false

[dependencies]
memchr = "=2.8.3"
glob = "=0.3.4"
regex = "=1.13.1"
bincode = { version = "=2.0.1", features = ["serde"] }
serde = { version = "=1.0.229", features = ["derive"] }
serde_json = "=1.0.154"
rayon = "=1.12.0"
xdg = "=3.0.0"
meval = "=0.2.0"
toml = "=1.1.8"
rusqlite = { version = "*", features = ["bundled"] }
linicon = "*"
freedesktop-icons = "*"
resvg = "*"
