[package]
name = "typhoon"
version = "0.1.0"
edition = "2021"
publish = false

[dependencies]
heck = "*"
regex = "*"
handlebars = "*"
serde = { version = "1", features = ["derive"] }
anyhow = "1"
clap = { version = "4", features = ["derive"] }
toml_edit = "*"

[dev-dependencies]
borsh = { version = "1", features = ["derive"] }
