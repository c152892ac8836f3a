[package]
name = "jz_office_core"
version = "0.1.0"
edition = "2021"
publish = false

[dependencies]
roxmltree = "0.20"
zip = { version = "2.4", default-features = false, features = ["deflate"] }
serde = { version = "1", features = ["derive"] }
serde_json = "1"
thiserror = "2"
