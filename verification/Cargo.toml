[package]
name = "scribe"
version = "0.1.0"
edition = "2021"
publish = false

[dependencies]
primitive-types = "*"
debug_tree = "*"
clap = { version = "3", features = ["derive"] }
colored = "2"
rustyline = "9"
miden-assembly = "0.2"
miden-processor = "0.2"

[dev-dependencies]
