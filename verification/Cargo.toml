[package]
name = "backoffice"
version = "0.1.0"
edition = "2021"
publish = false

[dependencies]
jsonwebtoken = "9"
sha2 = "0.10"
serde = { version = "1", features = ["derive"] }
serde_json = "1"
salvo = { version = "0.68", features = ["cors", "serve-static"] }
sqlx = { version = "0.8", default-features = false, features = ["sqlite", "runtime-tokio", "derive", "time"] }
tokio = { version = "1", features = ["macros", "rt-multi-thread"] }
time = { version = "0.3", features = ["serde"] }
uuid = { version = "1", features = ["v4"] }
