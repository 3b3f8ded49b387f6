[package]
name = "rustygit"
version = "0.1.0"
edition = "2021"
publish = false

[dependencies]
git2 = { version = "0.20", default-features = false }
pyo3 = "0.20"
rayon = "1"
