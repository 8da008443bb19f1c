[package]
name = "optical_flow_lk"
version = "0.1.0"
edition = "2021"
publish = false

[dependencies]
image = "=0.25.10"
imageproc = "=0.27.0"
rustc_apfloat = "=0.2.3+llvm-462a31f5a5ab"
