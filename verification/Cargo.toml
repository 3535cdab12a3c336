[package]
name = "finplan_server"
version = "0.1.0"
edition = "2021"
publish = false

[dependencies]
argon2 = "0.5"
password-hash = { version = "0.5", features = ["rand_core"] }
rand_core = { version = "0.6", features = ["getrandom"] }
rand = "0.9"
bcrypt = "0.15"
jsonwebtoken = "9"
chrono = "0.4"
sha2 = "0.10"
base64ct = { version = "1", features = ["alloc"] }
jiff = "0.2"
axum = "0.8"
axum-extra = { version = "0.10", features = ["cookie"] }
tokio = { version = "1", features = ["full"] }
sqlx = { version = "0.8", default-features = false, features = ["sqlite", "runtime-tokio", "macros", "migrate"] }
serde = { version = "1", features = ["derive"] }
serde_json = "1"
uuid = { version = "1", features = ["v4"] }
tracing = "0.1"
thiserror = "2"
clap = { version = "4", features = ["derive", "env"] }
