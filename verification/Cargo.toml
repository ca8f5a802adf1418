[package]
name = "geo_ecef"
version = "0.1.0"
edition = "2021"
publish = false

[dependencies]
arboard = { version = "=3.7.0", default-features = false }
slint = { version = "=1.18.1", default-features = false, features = ["std", "compat-1-2"] }

[dev-dependencies]
latlon = "=0.1.3"
