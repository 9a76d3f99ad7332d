[package]
name = "runt_core"
version = "0.1.0"
edition = "2021"
publish = false

[dependencies]
bevy_ecs = { version = "0.19", default-features = false, features = ["std"] }
bevy_reflect = { version = "0.19", default-features = false, features = ["std"] }
bytemuck = { version = "1", features = ["derive"] }
glam = { version = "*", features = ["bytemuck", "serde"] }
log = "0.4"
postcard = { version = "1", default-features = false, features = ["use-std"] }
ron = "*"
serde = { version = "1", features = ["derive"] }
wgpu = "30"
