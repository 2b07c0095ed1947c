[package]
name = "coop_runtime"
version = "0.1.0"
edition = "2021"
publish = false

[dependencies]
slab = "0.4"
mio = { version = "1", features = ["os-poll", "net"] }
log = "0.4"
pin-project-lite = "0.2"
