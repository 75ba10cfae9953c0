[package]
name = "citybound"
version = "0.1.0"
edition = "2021"
publish = false

[dependencies]
serde = { version = "=1.0.229", features = ["derive"] }
bincode = "=1.3.3"
rayon = "=1.12.0"
sys-info = "=0.9.1"
minifb = "=0.29.0"
libm = "0.2"
rand = { version = "0.8", features = ["small_rng"] }
cpal = "0.15"
