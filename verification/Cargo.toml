[package]
name = "arch_manager"
version = "0.1.0"
edition = "2021"
publish = false

[dependencies]
which = "*"
clap = { version = "*", features = ["derive"] }
colored = "*"
serde = { version = "*", features = ["derive"] }
serde-xml-rs = "*"
reqwest = { version = "*", default-features = false, features = ["blocking", "rustls-tls"] }
