[package]
name = "dev_cli"
version = "0.1.0"
edition = "2021"
publish = false

[dependencies]
anyhow = "=1.0.104"
async-trait = "=0.1.92"
console = "=0.16.6"
dlt-core = "=0.18.0"
fs_extra = "=1.3.0"
indicatif = "=0.18.6"
serde = { version = "=1.0.229", features = ["derive"] }
tokio = { version = "=1.53.2", features = ["rt-multi-thread", "macros", "sync"] }
