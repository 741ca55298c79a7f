[package]
name = "sqlx_migrator"
version = "0.1.0"
edition = "2021"
publish = false

[dependencies]
crc32fast = "*"
sqlx = { version = "*", default-features = false, features = ["postgres", "mysql", "sqlite", "runtime-tokio"] }
async-trait = "*"
thiserror = "*"
