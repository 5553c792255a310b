[package]
name = "buildprof"
version = "0.2.7"
edition = "2021"
publish = false

[dependencies]
analyzeme = "=12.0.3"
libc = "=0.2.191"
serde = { version = "=1.0.229", features = ["derive"] }
serde_json = "=1.0.154"
yansi = "=1.0.1"
zstd = "0.13"
