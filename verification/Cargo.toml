[package]
name = "ase_ls_core"
version = "0.1.0"
edition = "2021"
publish = false

[dependencies]
lsp-types = "=0.95.1"
serde = { version = "=1.0.229", features = ["derive"] }
serde_json = "=1.0.154"
once_cell = "=1.21.4"
tracing = "=0.1.44"
