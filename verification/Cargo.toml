[package]
name = "sbom_licenses"
version = "0.1.0"
edition = "2021"
publish = false

[dependencies]
csv = "*"
serde = { version = "*", features = ["derive"] }
serde_json = "*"
tabled = "*"
