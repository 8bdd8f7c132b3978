[package]
name = "folio-core"
version = "0.1.0"
edition = "2021"
publish = false

[dependencies]
sha2 = "0.10"
roxmltree = "*"
pathdiff = "*"
path-slash = "*"
ttf-parser = "*"
image = { version = "0.25", default-features = false, features = ["png", "jpeg", "gif", "webp"] }
serde = { version = "1", features = ["derive"] }
serde_json = "1"
anyhow = "1"
dirs = "*"
zip = { version = "*", default-features = false, features = ["deflate"] }
