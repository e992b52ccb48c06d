[package]
name = "redismodule_cmd"
version = "0.1.0"
edition = "2021"
publish = false

[dependencies]
redis-module = "0.11"
itertools = "*"
syn = { version = "*", features = ["full"] }
proc-macro2 = "*"
