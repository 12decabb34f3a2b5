[package]
name = "blackboxer"
version = "0.1.0"
edition = "2021"
publish = false

[dependencies]
bincode = "1.3.3"
chrono = "0.4"
mavlink = { version = "0.12", default-features = false, features = ["std", "ardupilotmega"] }
serde = { version = "1", features = ["derive"] }
