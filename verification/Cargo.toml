[package]
name = "kairos_server"
version = "0.1.0"
edition = "2021"
publish = false

[dependencies]
actix-cors = "*"
actix-web = "4"
bcrypt = "=0.19.3"
chrono = { version = "=0.4.45", features = ["serde"] }
dotenv = "*"
jsonwebtoken = "=9.3.1"
reqwest = { version = "0.12", default-features = false, features = ["json", "rustls-tls"] }
serde = { version = "1", features = ["derive"] }
serde_json = "1"
sqlx = { version = "0.8", default-features = false, features = ["runtime-tokio", "tls-rustls", "postgres", "uuid", "chrono"] }
tokio = { version = "1", features = ["macros", "rt-multi-thread"] }
uuid = { version = "=1.27.0", features = ["v4", "serde"] }
