[package]
name = "jormungandr_network"
version = "0.1.0"
edition = "2021"
publish = false

[dependencies]
rand = "=0.6.5"
poldercast = "=0.8.3"
cid = "=0.3.1"
futures = "=0.1.31"
tokio = "=0.1.22"
slog = "=2.8.2"
