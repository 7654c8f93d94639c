[package]
name = "simple_oracle"
version = "0.1.0"
edition = "2021"
publish = false

[dependencies]
frame-support = { version = "*", default-features = false }
frame-system = { version = "*", default-features = false }
pallet-timestamp = { version = "*", default-features = false }
parity-scale-codec = { version = "*", default-features = false, features = ["derive"] }
scale-info = { version = "*", default-features = false, features = ["derive"] }
sp-std = { version = "*", default-features = false }
