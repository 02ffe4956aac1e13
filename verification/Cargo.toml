[package]
name = "quiz_buzzer"
version = "0.1.0"
edition = "2021"
publish = false

[dependencies]
actix-cors = "0.7"
actix-web = "4"
actix-ws = "0.3"
dotenv = "0.15"
futures-util = "0.3"
serde = { version = "1", features = ["derive"] }
sqlx = { version = "0.8", default-features = false, features = ["postgres", "runtime-tokio", "macros"] }
tokio = { version = "1", features = ["sync", "macros", "rt"] }
