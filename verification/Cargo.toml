[package]
name = "bws"
version = "0.1.0"
edition = "2021"
publish = false

[dependencies]
md5 = "0.7"
sha2 = "0.10"
semver = "1"
flate2 = "1"
serde_json = "1"
clap = { version = "4", features = ["derive", "env"] }
tokio = { version = "1", features = ["rt-multi-thread", "net", "io-util", "macros", "sync", "time"] }
ctrlc = "3"
