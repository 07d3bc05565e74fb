[package]
name = "wr"
version = "0.1.0"
edition = "2021"
publish = false

[dependencies]
anyhow = "1"
clap = { version = "4", features = ["derive"] }
fs-err = "3"
read_input = "0.8"
regex = "1"
rusqlite = { version = "*", features = ["bundled"] }
serde = { version = "1", features = ["derive"] }
textwrap = "0.16"
toml = "0.8"
yansi = "0.5"
