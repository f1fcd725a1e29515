[package]
name = "gtfs_bin"
version = "0.1.0"
edition = "2021"
publish = false

[dependencies]
rayon = "1"
bitvec = "1"
gtfs-structures = { version = "*", default-features = false }
gtfs-rt = "*"
chrono = "0.4"
memmap2 = "0.9"
thiserror = "*"
clap = { version = "4", features = ["derive"] }
spinners = "*"
