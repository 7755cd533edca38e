[package]
name = "calc_fee"
version = "0.1.0"
edition = "2021"
publish = false

[dependencies]
sp-arithmetic = "=29.0.0"
serde = "=1.0.229"
serde_derive = "=1.0.229"
serde_json = "=1.0.151"
