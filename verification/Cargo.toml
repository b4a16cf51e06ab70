[package]
name = "iddns"
version = "0.1.0"
edition = "2021"
publish = false

[dependencies]
reqwest = { version = "=0.13.5", default-features = false, features = ["blocking", "query"] }
thiserror = "=2.0.21"
clap = { version = "=4.6.7", features = ["derive"] }
