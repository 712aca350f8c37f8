[package]
name = "bpf_llvm"
version = "0.1.0"
edition = "2021"
publish = false

[dependencies]
inkwell = { version = "=0.6.0", default-features = false, features = ["llvm14-0-prefer-dynamic", "target-x86"] }
