[package]
name = "textgrid_relabel"
version = "0.1.0"
edition = "2021"
publish = false

[dependencies]
chardetng = "=0.1.17"
encoding_rs = "=0.8.42"
rodio = { version = "=0.19.0", default-features = false, features = ["wav"] }
serde = { version = "=1.0.229", features = ["derive"] }
serde_json = "=1.0.154"
