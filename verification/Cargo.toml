[package]
name = "rawedio"
version = "0.8.0"
edition = "2021"
publish = false

[dependencies]
qoaudio = "*"
symphonia = "*"
indexmap = "*"
nohash-hasher = "*"
rtrb = "*"
crossbeam-utils = "*"
portable-atomic = "*"
triomphe = "*"
thiserror = "*"
log = "*"
replace_with = "*"
