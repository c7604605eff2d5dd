[package]
name = "orderbook_aggregator"
version = "0.1.0"
edition = "2021"
publish = false

[dependencies]
tokio = { version = "1", features = ["full"] }
futures = "0.3"
serde = { version = "1", features = ["derive"] }
serde_json = "1"
serde-aux = "*"
websocket-lite = "*"
rust_decimal = "1"
structopt = "0.3"
strum = "*"
strum_macros = "*"
