[package]
name = "hashcrack"
version = "0.1.0"
edition = "2021"
publish = false

[dependencies]
bcrypt = "0.15"
hex = "0.4"
md5 = "0.7"
sha1 = "0.10"
sha2 = "0.10"
