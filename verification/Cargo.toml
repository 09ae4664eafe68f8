[package]
name = "redditlang"
version = "0.1.0"
edition = "2021"
publish = false

[dependencies]
clap = { version = "=4.6.7", features = ["derive"] }
colored = "=3.1.1"
enquote = "=1.1.0"
inkwell = { version = "=0.11.0", features = ["llvm14-0-prefer-dynamic"] }
log = "=0.4.34"
pest = "=2.9.4"
pest_derive = "=2.9.4"
semver = { version = "=1.0.28", features = ["serde"] }
serde = { version = "=1.0.229", features = ["derive"] }
serde_yaml = "=0.9.34"
