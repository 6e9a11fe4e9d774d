[package]
name = "rail_signature"
version = "0.1.0"
edition = "2021"
publish = false

[dependencies]
either = "=1.19.0"
llvm-ir = { version = "=0.11.3", features = ["llvm-19"] }
rustc-demangle = "=0.1.28"
serde_json = "=1.0.154"
