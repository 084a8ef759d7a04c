[package]
name = "wagon"
version = "0.1.0"
edition = "2021"
publish = false

[dependencies]
anyhow = "1"
clap = { version = "4", features = ["derive"] }
clap_complete = "4"
colored = "*"
difflib = "*"
dirs = "*"
glob = "*"
libc = "*"
log = "*"
serde = { version = "1", features = ["derive"] }
time = { version = "0.3", features = ["formatting", "local-offset"] }
toml = "*"
tracing = "*"
tracing-subscriber = "*"
