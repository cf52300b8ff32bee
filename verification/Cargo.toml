[package]
name = "rbtl_steamsockets"
version = "0.1.0"
edition = "2021"
publish = false

[dependencies]
hashbrown = "*"
log = "*"
steamworks = "*"
