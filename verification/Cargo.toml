[package]
name = "luarena"
version = "0.1.0"
edition = "2021"
publish = false

[dependencies]
rand = "0.8"
clap = { version = "4", features = ["derive"] }
mlua = { version = "0.9", features = ["lua54", "vendored"] }
toml = "0.8"
uuid = "1"
serde = { version = "1", features = ["derive"] }
