[package]
name = "aws_cred"
version = "0.1.0"
edition = "2021"
publish = false

[dependencies]
dirs = "=7.0.0"
async-std = "=1.13.2"
rusoto_sts = { version = "=0.48.0", default-features = false, features = ["rustls"] }
aws-sdk-sts = { version = "=1.122.0", default-features = false }
