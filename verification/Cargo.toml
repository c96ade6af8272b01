[package]
name = "paletteer"
version = "0.1.0"
edition = "2021"
publish = false

[dependencies]
clap = { version = "4", features = ["derive"] }
glob = "0.3"
image = { version = "0.25", default-features = false, features = ["png", "jpeg", "webp"] }
palette = "0.7"
rayon = "1"
toml = "*"
webp = "0.3"
