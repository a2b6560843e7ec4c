[package]
name = "transit_model"
version = "0.1.0"
edition = "2021"
publish = false

[dependencies]
iso4217 = "*"
minidom = "*"
zip = "*"
csv = "*"
chrono = "*"
serde = { version = "*", features = ["derive"] }
serde_json = "*"
