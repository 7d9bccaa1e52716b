[package]
name = "anticone_sync"
version = "0.1.0"
edition = "2021"
publish = false

[dependencies]
async-trait = "*"
itertools = "*"
log = "*"
kaspa-consensus-core = "*"
kaspa-p2p-lib = "*"
