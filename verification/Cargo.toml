[package]
name = "pwsafe3"
version = "0.1.0"
edition = "2021"
publish = false

[dependencies]
sha2 = "*"
hmac = "*"
twofish = "*"
cbc = "*"
ecb = "*"
getopts = "=0.2.24"
regex = "=1.13.1"
rpassword = "=7.5.4"
clipboard = "=0.5.0"
