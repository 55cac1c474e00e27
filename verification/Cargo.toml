[package]
name = "fff_viewer"
version = "0.1.0"
edition = "2021"
publish = false

[dependencies]
image = { version = "0.25", default-features = false, features = ["jpeg", "tiff", "png"] }
lcms2 = "6"
rayon = "1"
log = "0.4"
chrono = "0.4"
env_logger = "0.11"
