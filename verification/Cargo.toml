[package]
name = "rover"
version = "0.1.0"
edition = "2021"
publish = false

[dependencies]
serde = { version = "1", features = ["derive"] }
toml = "*"
directories = "*"
reqwest = { version = "*", default-features = false, features = ["blocking"] }
structopt = "*"
