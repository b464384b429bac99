[package]
name = "path_tracer"
version = "0.1.0"
edition = "2021"
publish = false

[dependencies]
getopts = "=0.2.24"
indicatif = "0.17"
minifb = "=0.15.3"
png = "=0.16.8"
rand = { version = "=0.8.8", features = ["small_rng"] }
serde_json = "=1.0.154"
tokio = { version = "=1.54.1", features = ["full"] }
warp = "=0.3.7"
