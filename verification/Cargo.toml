[package]
name = "shield_rpc"
version = "0.1.0"
edition = "2021"
publish = false

[dependencies]
csv = "1"
ethers = { version = "2", default-features = false }
hex = "0.4"
reqwest = { version = "0.11", features = ["json"] }
rusqlite = "*"
serde = { version = "1", features = ["derive"] }
serde_derive = "1"
serde_json = "1"
tokio = { version = "1", features = ["macros", "rt-multi-thread"] }
warp = "0.3"
web3 = { version = "0.19", default-features = false }
