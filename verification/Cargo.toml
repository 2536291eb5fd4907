[package]
name = "ccol"
version = "0.1.0"
edition = "2021"
publish = false

[dependencies]
anyhow = "1"
clap = { version = "4", features = ["derive"] }
colored = "2"
copypasta = "0.10"
directories = "5"
dotenv = "0.15"
ratatui = "0.29"
serde_json = { version = "1", features = ["preserve_order"] }
tui-tree-widget = "0.23"

[dev-dependencies]
tempfile = "3"
