[package]
name = "world_sync"
version = "0.1.0"
edition = "2021"
publish = false

[dependencies]
bitcode = "*"
rayon = "*"
serde = { version = "*", features = ["derive"] }
tangled = "*"
