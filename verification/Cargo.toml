[package]
name = "pallet-music-styles"
version = "0.1.0"
edition = "2021"
publish = false

[dependencies]
frame-support = "*"
frame-system = "*"
sp-core = "*"
sp-runtime = "*"
sp-std = "*"
parity-scale-codec = { version = "3", features = ["derive"] }
scale-info = { version = "2", features = ["derive"] }

[dev-dependencies]
rand = "*"
