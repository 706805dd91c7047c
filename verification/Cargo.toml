[package]
name = "thurgood"
version = "0.2.1"
edition = "2021"
publish = false

[dependencies]
base64 = "0.13"
indexmap = "1"
num-bigint = "0.4"
num-traits = "0.2"
serde_json = "1"
thiserror = "1"
