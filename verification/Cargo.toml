[package]
name = "release_exporter"
version = "0.1.0"
edition = "2021"
publish = false

[dependencies]
regex = "*"
clap = { version = "*", features = ["derive"] }
futures = "*"
prometheus-client = "*"
reqwest = { version = "*", default-features = false, features = ["json"] }
serde = { version = "*", features = ["derive"] }
serde_yaml = "*"
thiserror = "*"
tide = "*"
tokio = { version = "*", features = ["macros", "rt"] }
tokio-stream = "*"
url = "*"
