[package]
name = "butler"
version = "0.1.0"
edition = "2021"
publish = false

[dependencies]
anyhow = "1"
atomicwrites = "*"
atty = "0.2"
bincode = "1.3"
byteorder = "1"
chrono = { version = "0.4", features = ["serde"] }
clap = { version = "4", features = ["derive"] }
image = { version = "*", default-features = false, features = ["jpeg"] }
kamadak-exif = "*"
lazy_static = "1"
log = "0.4"
num_cpus = "1"
rayon = "1"
serde = { version = "1", features = ["derive"] }
simplelog = "*"
tabled = "*"
uuid = { version = "1", features = ["v4", "serde"] }
xxhash-rust = { version = "0.8", features = ["xxh3"] }
yansi = "*"
