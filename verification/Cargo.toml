[package]
name = "revm_fusion"
version = "0.1.0"
edition = "2021"
publish = false

[dependencies]
ruint = "=1.21.1"
thiserror = "=2.0.21"
once_cell = "=1.21.4"
const-hex = "1"
