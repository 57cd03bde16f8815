[package]
name = "oxide_rs"
version = "0.1.0"
edition = "2021"
publish = false

[dependencies]
anyhow = "1"
candle-core = "*"
candle-transformers = "*"
clap = { version = "4", features = ["derive"] }
crossbeam-channel = "0.5"
crossterm = "*"
dirs = "*"
hf-hub = { version = "0.4", default-features = false, features = ["ureq"] }
libc = "0.2"
memmap2 = "0.9"
minijinja = "2"
num_cpus = "1"
ratatui = "*"
rayon = "1"
serde = { version = "1", features = ["derive"] }
serde_json = "1"
tokenizers = "*"
tokio = { version = "1", features = ["sync", "time", "rt", "rt-multi-thread", "macros"] }
tracing = "0.1"
tracing-subscriber = { version = "0.3", features = ["env-filter"] }
