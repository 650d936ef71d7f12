[package]
name = "rudd"
version = "0.1.0"
edition = "2021"
publish = false

[dependencies]
clap = { version = "4", features = ["derive"] }
colored = "*"
md5 = "*"
thiserror = "*"
walkdir = "2"
