[package]
name = "credx_encoding"
version = "0.1.0"
edition = "2021"
publish = false

[dependencies]
amcl_wrapper = "0.4"
openssl = "0.10"
chrono = "0.4"
bigdecimal = "0.1"
num-bigint = "0.2"
sha2 = "0.10"
digest = "0.10"
log = "0.4"
env_logger = "0.11"
ffi-support = "0.4"
