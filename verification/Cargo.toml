[package]
name = "rcompare"
version = "0.1.0"
edition = "2021"
publish = false

[dependencies]
blake3 = "=1.8.7"
hex = "=0.4.3"
csv = "=1.4.0"
regex = "=1.13.1"
serde = { version = "=1.0.229", features = ["derive"] }
serde_json = "=1.0.154"
serde_yml = "=0.0.13"
toml = "=1.1.8"
directories = "=6.0.0"
clap = { version = "=4.6.7", features = ["derive"] }
bincode = "=1.3.3"
calamine = "=0.38.0"
image = { version = "=0.25.10", default-features = false, features = ["png", "jpeg"] }
kamadak-exif = "=0.6.1"
filetime = "=0.2.29"
ignore = "=0.4.34"
uuid = { version = "=1.29.0", features = ["v4"] }
trash = "*"
