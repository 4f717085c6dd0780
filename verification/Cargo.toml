[package]
name = "crowdfunding"
version = "0.1.0"
edition = "2021"
publish = false

[dependencies]
near-sdk = "3.1.0"
url = "2"
