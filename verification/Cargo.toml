[package]
name = "dpscript"
version = "0.1.0"
edition = "2021"
publish = false

[dependencies]
async-lsp = { version = "*", features = ["tokio"] }
tokio = { version = "1", features = ["macros", "rt", "time", "fs"] }
tower = "*"
tracing = "*"
tracing-subscriber = "*"
dashmap = "*"
