[package]
name = "craftio"
version = "0.1.0"
edition = "2021"
publish = false

[dependencies]
aes = "=0.8.4"
flate2 = "=1.1.10"
mcproto-rs = { version = "=0.2.0", default-features = false, features = ["std"] }
thiserror = "=1.0.69"
async-trait = "=0.1.92"
futures = "=0.3.34"
tokio = { version = "=1.54.1", default-features = false, features = ["io-util"] }

[dev-dependencies]
cfb8 = "=0.8.1"
