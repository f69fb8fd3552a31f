[package]
name = "akari_score"
version = "0.1.0"
edition = "2021"
publish = false

[dependencies]
anyhow = "1"
async-trait = "0.1"
chrono = { version = "0.4", default-features = false }
diesel = { version = "2", features = ["mysql", "r2d2"] }
dotenvy = "0.15"
thiserror = "1"
traq = "*"
uuid = "1"

[dev-dependencies]
regex = "1"
