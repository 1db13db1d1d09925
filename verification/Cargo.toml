[package]
name = "cthulhu_core"
version = "0.1.0"
edition = "2021"
publish = false

[dependencies]
regex = "1"
serde = { version = "1", features = ["derive"] }
serde_json = "1"
tokio = { version = "1", features = ["rt-multi-thread", "macros", "sync", "time", "io-util", "net", "fs"] }
rumqttc = "*"
clap = { version = "4", features = ["derive"] }
chrono = "0.4"
toml = "*"
tracing = "*"
tracing-subscriber = "*"
color-eyre = "*"
serial2-tokio = "*"
tokio-serial = "*"
