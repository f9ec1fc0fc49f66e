[package]
name = "hyprhalo"
version = "0.1.0"
edition = "2021"
publish = false

[dependencies]
serde = { version = "1", features = ["derive"] }
serde_json = "1"
toml = "*"
log = "0.4"
env_logger = "*"
smithay-client-toolkit = { version = "*", default-features = false, features = ["calloop"] }
wayland-client = "*"
wayland-protocols = { version = "*", features = ["client"] }
wayland-protocols-wlr = { version = "*", features = ["client"] }
