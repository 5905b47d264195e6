[package]
name = "holdem"
version = "0.1.0"
edition = "2021"
publish = false

[dependencies]
poker = "0.6"
rand = "=0.8.8"
uuid = { version = "=1.29.0", features = ["v4", "serde"] }
chrono = { version = "=0.4.45", features = ["serde"] }
tokio = { version = "1", features = ["full"] }
axum = "0.8"
axum-extra = { version = "*", features = ["typed-header"] }
socketioxide = { version = "*", features = ["extensions"] }
sqlx = { version = "0.8", default-features = false, features = ["postgres", "runtime-tokio", "uuid", "chrono", "derive"] }
serde = { version = "1", features = ["derive"] }
serde_json = "1"
dashmap = "6"
eyre = "0.6"
thiserror = "2"
log = "0.4"
env_logger = "0.11"
bcrypt = "*"
validator = { version = "*", features = ["derive"] }
tap = "1"
