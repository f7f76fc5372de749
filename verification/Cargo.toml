[package]
name = "solaris"
version = "0.1.0"
edition = "2021"
publish = false

[dependencies]
hex = "*"
convert_case = "*"
chrono = "*"
modbus = "*"
influxdb2 = "*"
tokio = { version = "*", features = ["macros", "rt-multi-thread", "time"] }
serde = { version = "*", features = ["derive"] }
serde_yaml = "*"
serde_json = "*"
log = "*"
env_logger = "*"
futures = "*"
async-trait = "*"
