[package]
name = "gstzenoh"
version = "0.1.0"
edition = "2021"
publish = false

[dependencies]
flate2 = "=1.1.10"
flume = "=0.12.0"
lz4 = "=1.28.1"
thiserror = "=2.0.21"
urlencoding = "=2.1.3"
zenoh = { version = "=1.10.2", default-features = false, features = ["unstable"] }
zstd = "=0.14.3"
