[package]
name = "smt_rocksdb_store"
version = "0.1.0"
edition = "2021"
publish = false

[dependencies]
ckb-rocksdb = "=0.22.2"
sparse-merkle-tree = { version = "=0.5.3", features = ["blake2b"] }

[dev-dependencies]
blake2b-rs = "=0.2.0"
tempfile = "=3.27.0"
