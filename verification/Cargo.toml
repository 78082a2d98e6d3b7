[package]
name = "lune_ffi"
version = "0.1.0"
edition = "2021"
publish = false

[dependencies]
mlua = { version = "0.10", features = ["luau"] }
libffi = "3"
libloading = "0.8"
goblin = "0.8"
semver = "1"
thiserror = "1"
