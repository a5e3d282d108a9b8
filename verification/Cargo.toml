[package]
name = "anpai"
version = "0.1.0"
edition = "2021"
publish = false

[dependencies]
regex = "1"
sxd-document = "0.3"
sxd-xpath = "0.4"
iso8601 = "*"
chrono = "0.4"
rust_decimal = "1"
bigdecimal = "*"
num-bigint = "*"
serde = { version = "1", features = ["derive"] }
serde_json = "1"
fileinput = "*"
clap = { version = "4", features = ["derive"] }
