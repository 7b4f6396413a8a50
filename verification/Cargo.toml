[package]
name = "chainstate"
version = "0.1.0"
edition = "2021"
publish = false

[dependencies]
bitcoin = { version = "=0.29.2", features = ["bitcoinconsensus"] }
rustreexo = "=0.7.0"
sha2 = "=0.10.9"
async-std = "=1.13.2"
