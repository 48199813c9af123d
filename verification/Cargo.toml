[package]
name = "food_index"
version = "0.1.0"
edition = "2021"
publish = false

[dependencies]
flate2 = "*"
actix-web = { version = "*", default-features = false, features = ["macros"] }
reqwest = { version = "*", default-features = false }
local-ip-address = "*"
env_logger = "*"

[dev-dependencies]
serde_json = "*"
