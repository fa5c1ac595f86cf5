[package]
name = "cargo_linked"
version = "0.1.0"
edition = "2021"
publish = false

[dependencies]
ansi_term = "*"
fixedbitset = "*"
serde = { version = "1", features = ["derive"] }
serde_json = "1"
structopt = "*"
syn = { version = "*", features = ["full", "visit"] }
