[package]
name = "qtuamdao"
version = "0.1.0"
edition = "2021"
publish = false

[dependencies]
cosmwasm-schema = "1.5"
cosmwasm-std = "1.5"
cw-storage-plus = "1.2"
cw2 = "1.1"
cw20 = "1.1"
cw721 = "0.16"
cw721-base = { version = "0.16", features = ["library"] }
thiserror = "1"
