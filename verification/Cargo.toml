[package]
name = "lsys"
version = "0.1.0"
edition = "2021"
publish = false

[dependencies]
base64 = "0.22"
clap = { version = "4", features = ["derive"] }
rust_decimal = { version = "1", default-features = false, features = ["std", "maths"] }
svgtypes = "*"
thiserror = "1"
