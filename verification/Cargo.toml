[package]
name = "visionary"
version = "0.1.0"
edition = "2021"
publish = false

[dependencies]
anyhow = "=1.0.104"
bytemuck = { version = "=1.25.2", features = ["derive"] }
dirs = "=6.0.0"
egui = "=0.33.3"
glam = "=0.30.10"
hash40 = "=1.3.1"
image = { version = "=0.25.10", default-features = false, features = ["png"] }
image_dds = { version = "=0.7.2", default-features = false, features = ["image"] }
prc-rs = "=1.6.1"
serde = { version = "=1.0.229", features = ["derive"] }
serde_json = "=1.0.154"
sevenz-rust2 = "=0.20.2"
ssbh_data = "=0.19.0"
tegra_swizzle = "=0.4.0"
tempfile = "=3.27.0"
wgpu = "=28.0.0"
zip = { version = "=7.4.0", default-features = false, features = ["deflate"] }

[dev-dependencies]
syn = { version = "2", features = ["full"] }
