[package]
name = "pol_indexer"
version = "0.1.0"
edition = "2021"
publish = false

[dependencies]
anyhow = "=1.0.104"
chrono = { version = "=0.4.45", default-features = false, features = ["now"] }
clap = { version = "=4.6.7", default-features = false, features = ["derive", "std", "help", "usage"] }
dotenv = "=0.15.0"
env_logger = { version = "=0.10.2", default-features = false }
ethers = { version = "=2.0.14", default-features = false, features = ["ws"] }
hex = "=0.4.3"
rusqlite = "=0.29.0"
serde = { version = "=1.0.229", features = ["derive"] }
tokio = { version = "=1.54.1", features = ["macros", "rt-multi-thread", "signal", "time"] }
