[package]
name = "recibos"
version = "0.1.0"
edition = "2021"
publish = false

[dependencies]
chrono = "0.4"
printpdf = "0.7"
rusqlite = { version = "*", features = ["bundled"] }
dirs = "*"
serde = { version = "1", features = ["derive"] }
