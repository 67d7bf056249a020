[package]
name = "latticevm"
version = "0.1.0"
edition = "2021"
publish = false

[dependencies]
rand = "0.9"
serde = { version = "1", features = ["derive"] }
serde_yaml = "0.9"
anyhow = "1"
clap = { version = "4", features = ["derive"] }
crossterm = "0.28"
ratatui = "0.29"
itertools = "0.14"
priority-queue = "2"
p3-air = "*"
p3-field = "*"
p3-matrix = "*"
p3-uni-stark = "*"
p3-mersenne-31 = "*"
