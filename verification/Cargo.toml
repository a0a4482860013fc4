[package]
name = "other_world"
version = "0.1.0"
edition = "2021"
publish = false

[dependencies]
bevy = { version = "=0.5.0", default-features = false }
fixedbitset = "=0.4.2"
num-derive = { version = "=0.3.3", features = ["full-syntax"] }
