[package]
name = "sigid"
version = "0.1.0"
edition = "2021"
publish = false

[dependencies]
uuid = "1"
ulid = "1"
getrandom = "0.2"
wyrand = "*"
serde = "1"
