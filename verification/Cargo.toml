[package]
name = "milter_decoder"
version = "0.1.0"
edition = "2021"
publish = false

[dependencies]
mail-parser = "*"
tokio = { version = "*", features = ["rt-multi-thread", "net", "io-util", "time", "sync", "signal", "macros"] }
chrono = "*"
chrono-tz = "*"
