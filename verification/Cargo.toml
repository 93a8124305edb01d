[package]
name = "koru"
version = "0.1.0"
edition = "2021"
publish = false

[dependencies]
sha2 = "0.10"
mlua = { version = "0.11", features = ["lua54", "vendored", "async"] }
thiserror = "2"
rustix = { version = "1", features = ["termios", "process"] }
clap = { version = "4", features = ["derive"] }
