[package]
name = "ssclient"
version = "0.1.0"
edition = "2021"
publish = false

[dependencies]
aes-gcm = "*"
md-5 = "*"
rand = "*"
futures = "*"
