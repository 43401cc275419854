[package]
name = "sample_api"
version = "0.1.0"
edition = "2021"
publish = false

[dependencies]
actix-web = "4"
actix-files = "0.6"
rusqlite = { version = "*", features = ["bundled"] }
r2d2 = "*"
r2d2_sqlite = "*"
serde = { version = "1", features = ["derive"] }
serde_json = "1"
dotenv = "0.15"

[dev-dependencies]
uuid = "1"
