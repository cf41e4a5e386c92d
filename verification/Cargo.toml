[package]
name = "mini_jvm"
version = "0.1.0"
edition = "2021"
publish = false
rust-version = "1.95"

[dependencies]
cranelift = "=0.134.4"
cranelift-jit = "=0.134.4"
cranelift-module = "=0.134.4"
cranelift-native = "=0.134.4"
