[package]
name = "hellodb"
version = "0.1.0"
edition = "2021"
publish = false

[dependencies]
lz4 = "*"
sqlparser = "=0.49.0"
cli-table = "*"
rustyline = "*"
rand = "=0.8.8"
