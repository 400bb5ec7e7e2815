[package]
name = "btc_claim"
version = "0.1.0"
edition = "2021"
publish = false

[dependencies]
base58ck = "*"
hex = "*"
ripemd = "*"
sha2 = "*"
omni-transaction = "*"
