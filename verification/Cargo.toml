[package]
name = "gpioline"
version = "0.1.0"
edition = "2021"
publish = false

[dependencies]
anyhow = "=1.0.104"
clap = { version = "=4.6.7", features = ["derive"] }
gpiocdev = { version = "=0.8.0", features = ["uapi_v1", "uapi_v2"] }

[dev-dependencies]
gpiocdev-uapi = { version = "=0.7.0", features = ["uapi_v1", "uapi_v2"] }
