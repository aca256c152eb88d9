[package]
name = "parallel_executor"
version = "0.1.0"
edition = "2021"
publish = false

[dependencies]
anyhow = "1"
bcs = "0.1"
move-core-types = "*"
rayon = "1"
serde = { version = "1", features = ["derive"] }
