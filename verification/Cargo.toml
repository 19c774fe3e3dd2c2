[package]
name = "sgx_panic_backtrace"
version = "0.1.0"
edition = "2021"
publish = false

[dependencies]
backtrace = "0.3"
