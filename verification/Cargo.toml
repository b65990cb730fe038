[package]
name = "refinery_core"
version = "0.1.0"
edition = "2021"
publish = false

[dependencies]
async-trait = "0.1"
itertools = "0.13"
log = "0.4"
thiserror = "1"
time = { version = "0.3", features = ["formatting", "parsing"] }
tokio-postgres = "0.7"
