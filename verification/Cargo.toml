[package]
name = "protobuf-mdbook"
version = "0.1.0"
edition = "2021"
publish = false

[dependencies]
anyhow = "1"
buffa = "*"
buffa-descriptor = "*"
clap = { version = "4", features = ["derive"] }
mdbook-core = "*"
mdbook-driver = "*"
mdbook-preprocessor = "*"
mdbook-summary = "*"
protoc-bin-vendored = "*"
serde_json = "1"
sha2 = "0.10"
walkdir = "2"

[dev-dependencies]
tempfile = "3"
