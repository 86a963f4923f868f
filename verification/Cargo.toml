[package]
name = "telco_vecchio"
version = "0.1.0"
edition = "2021"
publish = false

[dependencies]
gsm7 = "*"
hex = "*"
tinyjson = "*"
tokio = { version = "*", features = ["rt", "time", "process", "io-util", "macros"] }
serial2-tokio = "*"
serde = { version = "*", features = ["derive"] }
toml = "*"
surge-ping = "*"
dns-lookup = "*"
fork = "*"
log = "*"
fern = "*"
humantime = "*"
rolling-file = "*"
