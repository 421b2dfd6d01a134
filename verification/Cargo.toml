[package]
name = "jbod"
version = "0.1.0"
edition = "2021"
publish = false

[dependencies]
clap = "2.33"
colored = "2"
lazy_static = "1.4"
nix = "0.23"
prettytable-rs = { version = "0.10", default-features = false }
prometheus = { version = "0.13", default-features = false }
subprocess = "0.2"
tokio = { version = "1", features = ["macros", "rt-multi-thread"] }
warp = "0.3"
