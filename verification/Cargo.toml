[package]
name = "sql_scan"
version = "0.1.0"
edition = "2021"
publish = false

[dependencies]
comfy-table = "*"
log = "*"
pretty_env_logger = "*"
