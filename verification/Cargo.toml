[package]
name = "spc_warnings"
version = "0.1.0"
edition = "2021"
publish = false

[dependencies]
quick-xml = { version = "*", features = ["serialize"] }
reqwest = { version = "*", features = ["blocking"] }
serde = { version = "*", features = ["derive"] }
