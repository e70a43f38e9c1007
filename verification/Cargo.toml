[package]
name = "dist_render"
version = "0.1.0"
edition = "2021"
publish = false

[dependencies]
serde = { version = "=1.0.229", features = ["derive"] }
toml = "=0.8.23"
tobj = "=4.0.5"
bytemuck = { version = "=1.25.2", features = ["derive"] }
log = "=0.4.35"
lazy_static = "=1.5.1"
fern = { version = "0.6", features = ["colored"] }
chrono = "0.4"
