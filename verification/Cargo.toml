[package]
name = "multiregex"
version = "0.1.0"
edition = "2021"
publish = false

[dependencies]
regex = "*"
rayon = "*"
clap = { version = "*", features = ["derive"] }

[dev-dependencies]
serde_json = "*"
