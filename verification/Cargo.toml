[package]
name = "directive_reducer"
version = "0.1.0"
edition = "2021"
publish = false

[dependencies]
clap = { version = "=4.6.7", features = ["derive"] }
confique = { version = "=0.4.0", features = ["toml"] }
miette = "=7.6.0"
thiserror = "=2.0.21"
tracing = "=0.1.44"
walkdir = "=2.5.0"
