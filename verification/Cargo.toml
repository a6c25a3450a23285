[package]
name = "appleloc"
version = "0.1.0"
edition = "2021"
publish = false

[dependencies]
mac6 = "*"
prost = { version = "0.13", default-features = false, features = ["std"] }
reqwest = { version = "0.12", features = ["blocking"] }
thiserror = "1"
