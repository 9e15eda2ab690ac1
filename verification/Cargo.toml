[package]
name = "bender_worker"
version = "0.1.0"
edition = "2021"
publish = false

[dependencies]
shlex = "=2.0.1"
serde = { version = "=1.0.229", features = ["derive"] }
serde_json = "*"
toml = "=1.1.7"
uuid = { version = "=1.27.0", features = ["v4"] }
fs2 = "=0.4.3"
reqwest = { version = "=0.13.5", default-features = false, features = ["blocking"] }
amqp = "=0.1.3"
