[package]
name = "map_rs"
version = "0.1.0"
edition = "2021"
publish = false

[dependencies]
geojson = "=0.24.2"
gtk = "=0.18.2"
reqwest = { version = "=0.12.28", features = ["json"] }
serde = { version = "=1.0.229", features = ["derive"] }
serde_json = "=1.0.154"
tokio = { version = "=1.54.1", features = ["rt-multi-thread", "time"] }
urlencoding = "=2.1.3"
webkit2gtk = { version = "=2.0.2", features = ["v2_40"] }
