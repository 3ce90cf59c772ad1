[package]
name = "pwdeck"
version = "0.1.0"
edition = "2021"
publish = false

[dependencies]
aes-gcm = "0.9"
scrypt = "0.10"
rand = "0.8"
nanoid = "0.4"
clap = "2"
rpassword = "5"
