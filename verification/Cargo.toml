[package]
name = "graph_util"
version = "0.1.0"
edition = "2021"
publish = false

[dependencies]
tokio-retry = "0.2"
tokio = "0.1"
futures = "0.1"
slog = "2"
slog-async = "2"
slog-term = "2"
failure = "0.1"
graphql-parser = "0.2"
