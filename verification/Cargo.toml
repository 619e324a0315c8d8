[package]
name = "qb_downloader"
version = "0.1.0"
edition = "2021"
publish = false

[dependencies]
sha1 = "0.10"
md5 = "0.7"
base32 = "0.5"
serde = { version = "1", features = ["derive"] }
serde_json = "1"
toml = "0.8"
reqwest = { version = "0.12", default-features = false, features = ["blocking", "json"] }
humantime = "2"
rand = "0.8"
directories-next = "2"
