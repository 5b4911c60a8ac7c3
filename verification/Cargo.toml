[package]
name = "legion_prof_viewer"
version = "0.1.0"
edition = "2021"
publish = false

[dependencies]
httparse = "=1.10.1"
sha2 = "=0.10.9"
serde_json = "=1.0.154"
duckdb = "=1.20000.1"
percentage = "*"
