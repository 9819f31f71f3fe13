[package]
name = "statement_router"
version = "0.1.0"
edition = "2021"
publish = false

[dependencies]
futures = "*"
parking_lot = "*"
tokio = { version = "*", features = ["rt"] }
