[package]
name = "larium"
version = "0.1.0"
edition = "2021"
publish = false

[dependencies]
bson = "=3.1.0"
dotenvy = "=0.15.7"
dptree = "=0.5.1"
futures = "=0.3.34"
mongodb = "=3.9.1"
pretty_env_logger = "=0.5.0"
reqwest = { version = "=0.12.28", features = ["json"] }
serde = { version = "=1.0.229", features = ["derive"] }
takecell = "=0.1.1"
teloxide = { version = "=0.17.0", features = ["macros"] }
tokio = { version = "=1.53.2", features = ["rt-multi-thread", "macros", "time"] }
