[package]
name = "global_price_index"
version = "0.1.0"
edition = "2021"
publish = false

[dependencies]
actix-web = "=4.18.1"
anyhow = "=1.0.104"
deadpool-redis = "=0.12.0"
dotenv = "=0.15.0"
env_logger = "=0.10.2"
flate2 = "=1.1.10"
futures-util = "=0.3.34"
log = "=0.4.34"
redis = "=0.23.0"
reqwest = "=0.11.27"
serde = { version = "=1.0.229", features = ["derive"] }
serde_json = "=1.0.154"
tokio = { version = "=1.54.1", features = ["macros", "rt-multi-thread", "time"] }
tokio-tungstenite = { version = "=0.20.1", features = ["native-tls"] }
