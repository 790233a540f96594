[package]
name = "matrix_kernel"
version = "0.1.0"
edition = "2021"

[dependencies]
libm = "0.2"
cortex-m = "0.7"
cortex-m-rt = "0.7"
cortex-m-semihosting = "0.5"
critical-section = "1"
embedded-alloc = "0.5"
panic-halt = "0.2"
