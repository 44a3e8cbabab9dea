[package]
name = "route_generator"
version = "0.1.0"
edition = "2021"
publish = false

[dependencies]
rand = "0.8"
image = { version = "0.24", default-features = false, features = ["png"] }
osmpbfreader = "0.16"
log = "0.4"
fern = "0.6"
humantime = "2"
nannou = "0.18"
