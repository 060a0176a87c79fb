[package]
name = "fsblob"
version = "0.1.0"
edition = "2021"
publish = false

[dependencies]
anyhow = "1"
clap = { version = "4", features = ["derive"] }
clap-num = "1"
snailquote = "*"

[dev-dependencies]
binrw = "*"
