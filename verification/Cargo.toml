[package]
name = "hexagon_fuzz"
version = "0.1.0"
edition = "2021"
publish = false

[dependencies]
env_logger = "0.11"
libafl = "0.12"
libafl_bolts = "0.12"
libafl_qemu = { version = "0.12", default-features = false, features = ["hexagon", "systemmode"] }
log = "0.4"
serde = { version = "1", features = ["derive"] }
serde_json = "1"
