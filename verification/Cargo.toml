[package]
name = "openlaundry_backend"
version = "0.1.0"
edition = "2021"
publish = false

[dependencies]
base64 = "0.13"
libflate = "1"
serde = { version = "1", features = ["derive"] }
serde_json = "1"
chrono = { version = "0.4", features = ["serde"] }
actix-web = "3"
diesel = { version = "1.4", features = ["sqlite", "r2d2", "chrono"] }
diesel_migrations = "1.4"
dotenv = "0.15"
tokio = { version = "0.2", features = ["full"] }
