[package]
name = "secure_native"
version = "0.1.0"
edition = "2021"
publish = false

[dependencies]
jni = "*"
ffi-support = "*"
libc = "*"
