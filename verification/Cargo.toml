[package]
name = "pklib"
version = "0.1.0"
edition = "2021"
publish = false

[dependencies]
bytes = "1"
clap = { version = "4", features = ["derive"] }
futures = "0.3"
indicatif = "0.17"
log = "0.4"
num_cpus = "1"
pin-project = "1"
thiserror = "1"
tokio = { version = "1", features = ["fs", "io-util", "rt", "rt-multi-thread", "macros"] }
