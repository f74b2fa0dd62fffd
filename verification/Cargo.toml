[package]
name = "midilang"
version = "0.1.0"
edition = "2021"
publish = false

[dependencies]
midly = { version = "=0.5.3", default-features = false, features = ["alloc", "std"] }
llvm-sys = { version = "=140.1.3", features = ["prefer-dynamic"] }
clap = { version = "=3.2.25", features = ["derive"] }
env_logger = "=0.10.2"
log = "=0.4.34"
