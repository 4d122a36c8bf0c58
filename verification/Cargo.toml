[package]
name = "sensitive_info_extractor"
version = "0.1.0"
edition = "2021"
publish = false

[dependencies]
anyhow = "*"
calamine = "*"
chrono = "*"
rayon = "*"
reqwest = { version = "*", default-features = false, features = ["blocking", "json"] }
rust_xlsxwriter = "*"
serde = { version = "*", features = ["derive"] }
