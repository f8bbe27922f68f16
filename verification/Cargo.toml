[package]
name = "task_tracker"
version = "0.1.0"
edition = "2021"
publish = false

[dependencies]
anyhow = "1"
chrono = "0.4"
clap = { version = "4", features = ["derive"] }
colored = "2"
dialoguer = "0.11"
directories = "*"
rusqlite = { version = "*", features = ["bundled"] }
sha1 = "0.10"
tabled = "*"
