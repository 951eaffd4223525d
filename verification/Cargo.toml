[package]
name = "doa"
version = "0.1.0"
edition = "2021"
publish = false

[dependencies]
colored = "*"
derive_builder = "*"
dotenv = "*"
serde = { version = "1", features = ["derive"] }
serde_yaml = "*"
structopt = "*"
toml = "*"
which = "*"
