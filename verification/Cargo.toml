[package]
name = "chain_client"
version = "0.1.0"
edition = "2021"
publish = false

[dependencies]
anyhow = "=1.0.104"
rand = "=0.9.5"
scale-info = "=2.11.6"
sp-crypto-hashing = "=0.1.0"
subxt = "=0.44.3"
subxt-signer = "=0.44.3"
tokio = { version = "=1.54.1", features = ["macros", "rt-multi-thread", "time"] }
