[package]
name = "seamingly_epic"
version = "0.1.0"
edition = "2021"
publish = false

[dependencies]
anyhow = "1"
clap = { version = "4", features = ["derive"] }
memmap2 = "0.9"
png = "0.18"
rayon = "1"
rustdct = "0.7"
serde = { version = "1", features = ["derive"] }
serde_json = "1"
tempfile = "3"
