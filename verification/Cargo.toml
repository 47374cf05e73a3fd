[package]
name = "caramell"
version = "0.1.0"
edition = "2021"
publish = false

[dependencies]
primitive-types = { version = "=0.14.0", features = ["serde", "rustc-hex"] }
memcache = { version = "=0.21.0", default-features = false }
rumqttc = { version = "=0.25.1", default-features = false }
bytes = "=1.12.1"
serde = { version = "=1.0.229", features = ["derive"] }
tokio = { version = "=1.54.1", features = ["full"] }
toml = "=0.8.23"
rocket = { version = "=0.5.2", features = ["json"] }
