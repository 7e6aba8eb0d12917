[package]
name = "prettify"
version = "0.1.0"
edition = "2021"
publish = false

[dependencies]
comrak = "0.18"
sqlformat = "0.2"
clipboard = "0.5"
clap = { version = "4", features = ["derive"] }
