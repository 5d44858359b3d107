[package]
name = "tunnelclient"
version = "0.1.0"
edition = "2021"
publish = false

[dependencies]
sha2 = "0.10"
zip = { version = "2", default-features = false, features = ["deflate"] }
gethostname = "0.5"
serde = { version = "1", features = ["derive"] }
rmp-serde = "1"
serialport = { version = "4", default-features = false }
