[package]
name = "thorkv"
version = "0.1.0"
edition = "2021"

[dependencies]
byteorder = "=1.5.0"
lockfree = "=0.5.1"
lockfree-cuckoohash = "=0.1.0"
skiplist = "=0.5.1"
tokio = { version = "=1.54.1", features = ["rt", "rt-multi-thread", "time"] }
