[package]
name = "remote_media_pi"
version = "0.1.0"
edition = "2021"
publish = false

[dependencies]
scraper = "*"
reqwest = { version = "*", default-features = false, features = ["blocking"] }
actix-web = { version = "*", default-features = false, features = ["macros"] }
tokio = { version = "*", default-features = false, features = ["net", "rt", "macros"] }
transmission-rpc = "*"
dotenv = "*"
env_logger = "*"
log = "*"
serde = { version = "*", features = ["derive"] }
