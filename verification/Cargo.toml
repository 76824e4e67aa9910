[package]
name = "fit2srt-core"
version = "0.1.0"
edition = "2021"
publish = false

[dependencies]
chrono = "=0.4.45"
clap = { version = "=4.6.7", features = ["derive"] }
fitparser = "=0.11.0"
thiserror = "=2.0.21"
native-dialog = "0.9"
tracing-subscriber = "0.3"
