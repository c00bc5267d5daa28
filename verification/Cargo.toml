[package]
name = "strict_json"
version = "0.1.0"
edition = "2021"
publish = false

[dependencies]
escape8259 = "0.5"
nom = { version = "5", default-features = false, features = ["std"] }
thiserror = "1"
