[package]
name = "rusty_torrent"
version = "0.1.0"
edition = "2021"
publish = false

[dependencies]
sha1 = "0.10"
regex = "1"
tokio = { version = "1", features = ["full"] }
clap = { version = "4", features = ["derive"] }
log = "0.4"
simple-logging = "2"
dns-lookup = "2"

[dev-dependencies]
serde_bencode = "0.2"
