[package]
name = "baro_bot"
version = "0.1.0"
edition = "2021"
publish = false

[dependencies]
humantime = "=2.4.0"
kovi = "=0.12.7"
azalea-brigadier = "=0.16.0"
inventory = "=0.3.25"
serde = { version = "=1.0.229", features = ["derive"] }
serde_yaml = "=0.9.34"
reqwest = { version = "=0.12.28", default-features = false, features = ["json", "cookies"] }
async-openai = "=0.29.6"
anyhow = "=1.0.104"
rand = "=0.9.5"
rand_chacha = "=0.9.0"
r2d2 = "=0.8.10"
r2d2_sqlite = "=0.35.0"
