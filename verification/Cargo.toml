[package]
name = "stem_split"
version = "0.1.0"
edition = "2021"
publish = false

[dependencies]
anyhow = "*"
camino = "*"
clap = { version = "*", features = ["derive"] }
rsmpeg = "*"
supports-color = "*"
tensorflow = "*"
tracing = "*"
tracing-subscriber = { version = "*", features = ["env-filter"] }
