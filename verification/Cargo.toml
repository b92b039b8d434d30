[package]
name = "vector"
version = "0.1.0"
edition = "2021"
publish = false

[dependencies]
chrono = "=0.4.45"
exitcode = "=1.1.2"
futures = "=0.3.34"
glob = "=0.3.4"
heim = { version = "=0.0.11", default-features = false, features = ["disk"] }
indexmap = { version = "=2.14.2", features = ["serde"] }
metrics = "=0.24.6"
notify = "=8.2.1"
regex = "=1.13.1"
serde = { version = "=1.0.229", features = ["derive"] }
serde_json = "=1.0.154"
serde_yaml = "=0.9.34"
tokio = { version = "=1.54.1", features = ["rt-multi-thread", "sync", "time", "io-util", "io-std", "macros"] }
toml = "=1.1.8"
tracing = "=0.1.44"
vrl = { version = "=0.38.0", default-features = false, features = ["compiler", "value", "stdlib-base"] }
