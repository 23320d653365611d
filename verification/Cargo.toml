[package]
name = "p2p_node_handshake"
version = "0.1.0"
edition = "2021"
publish = false

[dependencies]
bitcoin = "0.30"
bytes = "1"
tokio = { version = "1", features = ["rt-multi-thread", "net", "io-util", "time", "macros"] }
