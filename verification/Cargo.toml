[package]
name = "automate"
version = "0.1.0"
edition = "2021"
publish = false

[dependencies]
nanoid = "0.4"
anyhow = "1"
chrono = "0.4"
local-ip-address = "0.6"
reqwest = { version = "0.12", default-features = false }
sea-orm = { version = "1", default-features = false, features = ["macros"] }
sea-query = "0.32"
