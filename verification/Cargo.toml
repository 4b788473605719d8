[package]
name = "artifact_resolver"
version = "0.1.0"
edition = "2021"
publish = false

[dependencies]
flate2 = "*"
zip = { version = "*", default-features = false, features = ["deflate"] }
current_platform = "*"
