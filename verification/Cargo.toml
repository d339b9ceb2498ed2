[package]
name = "raster_scene"
version = "0.1.0"
edition = "2021"
publish = false

[dependencies]
anyhow = "1"
block = "0.1"
cocoa = "0.26"
core-foundation = "0.10"
core-graphics = "0.24"
core-video = { version = "0.4.3", features = ["metal"] }
foreign-types = "0.5"
log = "0.4"
mach2 = "0.5"
metal = "0.29"
objc = "0.2"
parking_lot = "0.12"
schemars = "1"
serde = { version = "1", features = ["derive"] }
