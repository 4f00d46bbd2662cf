[package]
name = "commission_meetings"
version = "0.1.0"
edition = "2021"
publish = false

[dependencies]
regex = "1"
scraper = "*"
encoding_rs = "0.8"
serde_json = "1"
arrow = { version = "*", default-features = false }
parquet = { version = "*", default-features = false, features = ["arrow"] }
tokio = { version = "1", features = ["macros", "rt-multi-thread", "fs"] }
http = "1"
indicatif = "*"
dotenvy = "*"
