[package]
name = "flymark"
version = "0.1.0"
edition = "2021"
publish = false

[dependencies]
anyhow = "1"
async-trait = "0.1"
better-panic = "0.3"
chrono = "0.4"
clap = { version = "4", features = ["derive"] }
crossterm = { version = "0.25", features = ["event-stream"] }
futures = "0.3"
futures-timer = "3"
memfile = "*"
reqwest = { version = "0.11", features = ["json"] }
serde = { version = "1", features = ["derive"] }
tempfile = "3"
tmux_interface = "0.2"
tokio = { version = "1", features = ["full"] }
tui = "0.19"
tui-input = "0.6"
