[package]
name = "alfred_flutter_docs"
version = "0.1.0"
edition = "2021"
publish = false

[dependencies]
alfred_workflow_rs = "*"
anyhow = "1"
serde = { version = "1", features = ["derive"] }
serde_json = "1"
url = "2"
