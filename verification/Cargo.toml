[package]
name = "golioth_rs"
version = "0.1.0"
edition = "2021"
publish = false

[dependencies]
coap-lite = "=0.13.3"
nanorand = { version = "=0.7.0", default-features = false, features = ["wyrand"] }
embassy-sync = "=0.8.0"
embassy-time = "=0.5.1"
embassy-executor = "=0.10.0"
embassy-nrf = { version = "=0.11.0", features = ["nrf9160-ns"] }
nrf-modem = { version = "=0.11.0", features = ["nrf9160"] }
cortex-m = "=0.7.10"
defmt = "=1.2.0"
futures = "=0.3.34"
serde = { version = "=1.0.229", features = ["derive"] }
serde_json = "=1.0.154"

[dev-dependencies]
at-commands = "=0.5.8"
embassy-sync = { version = "=0.8.0", features = ["std"] }
embassy-time = { version = "=0.5.1", features = ["std"] }
