[package]
name = "map_analyzer"
version = "0.1.0"
edition = "2021"
publish = false

[dependencies]
sha2 = "0.10"
md5 = "0.7"
serde = { version = "1", features = ["derive"] }
serde_json = "1"
serde_yaml = "0.9"
rosu-pp = "*"
