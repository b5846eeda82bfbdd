[package]
name = "pixelflut"
version = "0.1.0"
edition = "2021"
publish = false

[dependencies]
arrayvec = "=0.7.8"
bit-set = "=0.8.0"
rayon = "=1.12.0"
libc = "=0.2.191"

[dev-dependencies]
regex = "=1.13.1"
