[package]
name = "regex_finder"
version = "0.1.0"
edition = "2021"
publish = false

[dependencies]
regex = "1"
colored = "2"
clap = "3.2"
tracing = "0.1"
tracing-subscriber = "0.3"
