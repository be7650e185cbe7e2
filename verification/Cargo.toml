[package]
name = "autotask"
version = "0.1.0"
edition = "2021"
publish = false

[dependencies]
change-case = "*"
once_cell = "1"
proc-macro2 = "1"
quote = "1"
syn = { version = "2", features = ["full"] }
