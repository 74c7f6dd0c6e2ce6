[package]
name = "faasten_core"
version = "0.1.0"
edition = "2021"
publish = false

[dependencies]
labeled = "*"
rouille = "*"
serde = { version = "*", features = ["derive"] }
serde_json = "*"
