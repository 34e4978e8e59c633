[package]
name = "async-stream"
version = "0.3.5"
edition = "2021"
publish = false

[dependencies]
futures-core = "0.3"
pin-project-lite = "0.2"
proc-macro2 = "1"
quote = "1"
syn = { version = "1", features = ["full", "visit-mut"] }
