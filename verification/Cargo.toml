[package]
name = "dropboxignore"
version = "0.1.0"
edition = "2021"
publish = false

[dependencies]
regex = "1"
clap = { version = "4", features = ["derive"] }
notify = "6"
xattr = "1"

[dev-dependencies]
nom = "7"
