[package]
name = "codem"
version = "0.1.0"
edition = "2021"
publish = false

[dependencies]
aho-corasick = "1"
regex = "1"
glob = "0.3"
ignore = "0.4"
num_cpus = "1"
futures = "0.3"
serde = { version = "1", features = ["derive"] }
tokio = { version = "1", features = ["full"] }
toml = "*"
uuid = { version = "1", features = ["v4", "serde"] }
wait-timeout = "0.2"
