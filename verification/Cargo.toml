[package]
name = "hugdocker"
version = "0.4.4"
edition = "2021"
publish = false

[dependencies]
bollard = "*"
clap = { version = "4", features = ["derive", "env"] }
clap_complete = "4"
crossterm = "*"
futures-util = "*"
ratatui = "*"
serde = { version = "1", features = ["derive"] }
serde_json = "1"
thiserror = "*"
tokio = { version = "1", features = ["full"] }
toml = "*"
