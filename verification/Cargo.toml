[package]
name = "schema_adapter"
version = "0.1.0"
edition = "2021"
publish = false

[dependencies]
arrow = { version = "=59.3.2", default-features = false }
datafusion = { version = "=55.2.0", default-features = false }
datafusion-physical-expr-adapter = "=55.2.0"
log = "=0.4.35"
parquet = { version = "=59.3.2", default-features = false, features = ["arrow"] }
