[package]
name = "lyrics_dsl"
version = "0.1.0"
edition = "2021"
publish = false

[dependencies]
clap = "4"
colored = "2"
regex = "1"
serde = { version = "1", features = ["derive"] }
serde_json = "1"
