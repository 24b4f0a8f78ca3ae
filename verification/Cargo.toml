[package]
name = "stat_engine"
version = "0.1.0"
edition = "2021"
publish = false

[dependencies]
chrono = { version = "0.4", default-features = false, features = ["std"] }
numpy = "0.21"
pyo3 = "0.21"
rayon = "1"
regex = "1"
