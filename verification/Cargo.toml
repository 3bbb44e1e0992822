[package]
name = "rocket"
version = "0.1.0"
edition = "2021"
publish = false

[dependencies]
rand = "*"
regex = "*"
glob = "*"
syntect = { version = "*", default-features = false, features = ["default-fancy"] }
serde = { version = "*", features = ["derive"] }
serde_json = "*"
toml = "*"
handlebars = "*"
walkdir = "*"
