[package]
name = "harness_state"
version = "0.1.0"
edition = "2021"
publish = false

[dependencies]
uuid = { version = "1", features = ["v4"] }
chrono = { version = "0.4", default-features = false, features = ["clock", "std"] }
serde = { version = "1", features = ["derive"] }
serde_json = "1"
thiserror = "1"
tokio = { version = "1", features = ["fs", "sync", "rt", "time"] }
async-trait = "0.1"
redis = { version = "0.25", default-features = false, features = ["tokio-comp", "connection-manager"] }
sqlx = { version = "0.7", default-features = false, features = ["runtime-tokio", "sqlite", "postgres", "uuid", "chrono", "json"] }
object_store = { version = "0.10", features = ["aws"] }
bytes = "1"
futures = "0.3"
tracing = "0.1"
jsonschema = { version = "0.18", default-features = false }
