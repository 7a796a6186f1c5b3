[package]
name = "srsglass"
version = "0.1.0"
edition = "2021"
publish = false

[dependencies]
anyhow = "*"
chrono = "*"
chrono-tz = "*"
clap = { version = "*", features = ["derive"] }
flate2 = "*"
quick-xml = "*"
rust_xlsxwriter = "*"
ureq = "*"
