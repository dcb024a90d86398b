[package]
name = "mellanite"
version = "0.1.0"
edition = "2021"
publish = false

[dependencies]
slab = "0.4"
fxhash = "0.2"
bytemuck = { version = "1", features = ["derive"] }
rand = "0.8"
