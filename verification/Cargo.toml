[package]
name = "news_lister"
version = "0.1.0"
edition = "2021"
publish = false

[dependencies]
chrono = "*"
gotham = "*"
gotham_derive = "*"
mime = "*"
clap = "*"
futures-util = "*"
serde = { version = "*", features = ["derive"] }
