[package]
name = "printpilot"
version = "0.9.5"
edition = "2021"
publish = false

[dependencies]
uuid = { version = "1", features = ["v7"] }
serde = { version = "1", features = ["derive"] }
serde_json = "1"
spade = "2"
zip = { version = "2", default-features = false, features = ["deflate"] }
gltf = { version = "1", default-features = false, features = ["utils"] }
rusqlite = { version = "0.32", features = ["bundled"] }
