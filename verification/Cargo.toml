[package]
name = "dsa"
version = "0.1.0"
edition = "2021"
publish = false

[dependencies]
num-bigint-dig = { version = "=0.8.6", default-features = false, features = ["prime", "rand"] }
num-traits = { version = "=0.2.19", default-features = false }
rand = "=0.8.8"
digest = "=0.10.7"

[dev-dependencies]
rand_chacha = "=0.3.1"
sha2 = "=0.10.9"
der = "=0.7.10"
