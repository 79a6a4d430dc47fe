[package]
name = "rpcmux"
version = "0.1.0"
edition = "2021"
publish = false

[dependencies]
nix = "0.23"
tokio = { version = "1", features = ["rt", "macros", "net", "io-util", "sync", "time"] }
