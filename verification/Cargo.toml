[package]
name = "riemann_solver"
version = "0.1.0"
edition = "2021"
publish = false

[dependencies]
nalgebra = "=0.33.3"
rand = "=0.8.8"
rand_distr = "=0.4.3"
rayon = "=1.12.0"
serde = { version = "=1.0.229", features = ["derive"] }
serde_json = "=1.0.154"
clap = { version = "=4.6.7", features = ["derive"] }
anyhow = "=1.0.104"
chrono = { version = "=0.4.45", features = ["serde"] }
thiserror = "=1.0.69"
tracing = "=0.1.44"
tracing-subscriber = "=0.3.23"
log = "=0.4.35"
