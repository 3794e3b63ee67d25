[package]
name = "gallery_sorter"
version = "0.1.0"
edition = "2021"
publish = false

[dependencies]
anyhow = "1"
chrono = "0.4"
clap = { version = "4", features = ["derive"] }
console = "0.15"
indicatif = "0.17"
kamadak-exif = "0.5"
jwalk = "0.8"
num_cpus = "1"
rayon = "1"
reflink-copy = "0.1"
serde = { version = "1", features = ["derive"] }
serde_json = "1"
