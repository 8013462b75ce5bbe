[package]
name = "cheatlib"
version = "0.1.0"
edition = "2021"
publish = false

[dependencies]
md5 = "0.7"
rand = "0.8"
libc = "0.2"
log = "0.4"
jni = "0.21"
android_logger = "0.14"
