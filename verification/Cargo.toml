[package]
name = "finality_pbft"
version = "0.1.0"
edition = "2021"
publish = false

[dependencies]
finality-grandpa = "=0.16.3"
fork-tree = "=4.0.0"
futures = "=0.3.34"
log = "0.4"
parity-scale-codec = { version = "=3.7.5", features = ["derive"] }
parking_lot = "=0.12.5"
sp-application-crypto = "=6.0.0"
sp-core = "=6.0.0"
sp-keystore = "=0.12.0"
sp-runtime = "=6.0.0"
substrate-bip39 = "=0.4.4"
substrate-prometheus-endpoint = "=0.17.7"
thiserror = "1"
tokio = { version = "=1.54.1", features = ["sync"] }
