[package]
name = "chagpt"
version = "0.1.0"
edition = "2021"
publish = false

[dependencies]
actix = "*"
actix-http = "*"
actix-web = "*"
actix-web-actors = "*"
bb8-postgres = "*"
parking_lot = "*"
rand = "0.8"
rand_core = "0.6"
reqwest = { version = "*", default-features = false }
scraper = "*"
serde = { version = "*", features = ["derive"] }
serde_json = "*"
tokio = { version = "*", features = ["rt", "macros", "time"] }
tokio-postgres = "*"
