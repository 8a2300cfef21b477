[package]
name = "cubrid_logtopbind_rs"
version = "0.1.0"
edition = "2021"
publish = false

[dependencies]
anyhow = "1"
clap = { version = "4", features = ["derive"] }
indicatif = "0.17"
regex = "1"
rusqlite = "*"
serde_json = "1"
sqlformat = "*"
