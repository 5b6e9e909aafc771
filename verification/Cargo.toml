[package]
name = "code_stats"
version = "0.1.0"
edition = "2021"
publish = false

[dependencies]
jwalk = "*"
peak_alloc = "*"
rayon = "*"
serde = { version = "*", features = ["derive"] }
serde_json = "*"
