[package]
name = "exfat_core"
version = "0.1.0"
edition = "2021"
publish = false

[dependencies]
lru = "0.9.0"
hashbrown = "0.14"
bitvec = { version = "1.0", default-features = false, features = ["alloc"] }
spin = "0.9"
log = "0.4"
