[package]
name = "slonq"
version = "0.1.0"
edition = "2021"
publish = false

[dependencies]
chrono = "0.4"
neon = "1"
postgres-types = { version = "0.2", features = ["derive"] }
pyo3 = { version = "0.26", features = ["extension-module", "abi3-py39"] }
pyo3-async-runtimes = { version = "0.26", features = ["tokio-runtime"] }
serde_json = "1"
tokio = { version = "1", features = ["rt-multi-thread"] }
tokio-postgres = { version = "0.7", features = ["with-chrono-0_4", "with-serde_json-1", "with-uuid-1"] }
uuid = "1"

[dev-dependencies]
stateright = "0.30"
