[package]
name = "rt-plot"
version = "0.1.0"
edition = "2021"
publish = false

[dependencies]
clap = "=2.34.0"
gl = "=0.14.0"
gl_loader = "=0.1.2"
glfw = "=0.63.0"
nalgebra = { version = "0.33", default-features = false, features = ["std"] }
rusttype = "=0.9.3"
serde = { version = "=1.0.229", features = ["derive"] }
serde_derive = "=1.0.229"
serialport = { version = "=4.10.1", default-features = false }
toml = "=0.5.11"
