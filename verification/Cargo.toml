[package]
name = "web3_calls"
version = "0.1.0"
edition = "2021"
publish = false

[dependencies]
ethabi = "14"
tiny-keccak = "1.5"
jsonrpc-core = "17"

[dev-dependencies]
bs58 = "0.4"
