[package]
name = "binprot"
version = "0.1.0"
edition = "2021"
publish = false

[dependencies]
byteorder = "1"
md5 = "0.7"
tokio = { version = "1", features = ["io-util"] }
async-trait = "0.1"
syn = { version = "1", features = ["full"] }
quote = "1"
proc-macro2 = "1"
