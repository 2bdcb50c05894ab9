[package]
name = "dim_slam"
version = "0.1.0"
edition = "2021"
publish = false

[dependencies]
nalgebra = "=0.33.3"
serde = { version = "=1.0.229", features = ["derive"] }
serde_json = "=1.0.154"
tracing = "=0.1.44"
tracing-subscriber = { version = "=0.3.23", features = ["env-filter"] }
pyo3 = "=0.29.3"
pythonize = "=0.29.0"
cu_vslam_rs = "=0.1.2"
depth2depth = { version = "=0.4.1", default-features = false }
