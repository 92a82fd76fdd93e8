[package]
name = "dyscypliner"
version = "0.1.0"
edition = "2021"
publish = false

[dependencies]
rand = "0.8"
actix = "0.13"
actix-web = "4"
actix-web-actors = "4"

[dev-dependencies]
serde_json = "1"
