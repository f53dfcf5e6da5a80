[package]
name = "nusamai"
version = "0.1.0"
edition = "2021"
publish = false

[dependencies]
ext-sort = { version = "=0.1.6", features = ["memory-limit"] }
deepsize = "=0.2.0"

[dev-dependencies]
quick-xml = "=0.42.0"
