[package]
name = "matte_core"
version = "0.1.0"
edition = "2021"
publish = false

[dependencies]
image = "=0.25.10"
vtracer = "=0.6.5"
visioncortex = "=0.8.10"
clap = { version = "=4.6.7", features = ["derive"] }
roxmltree = "=0.21.1"
