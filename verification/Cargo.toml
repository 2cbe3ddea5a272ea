[package]
name = "ric3"
version = "0.1.0"
edition = "2021"
publish = false

[dependencies]
giputils = "*"
log = "0.4"
logicrs = "*"
rand = "0.9"
