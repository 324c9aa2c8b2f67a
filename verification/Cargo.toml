[package]
name = "charli3-oracle-core"
version = "0.1.0"
edition = "2021"
publish = false

[dependencies]
frame-support = "40.1"
frame-system = "40.1"
log = "0.4"
minicbor = { version = "0.26", features = ["alloc"] }
num-rational = { version = "0.4", default-features = false }
num-traits = { version = "0.2", default-features = false }
pallet-timestamp = "39.0"
parity-scale-codec = { version = "3.7", features = ["derive", "max-encoded-len"] }
scale-info = { version = "2.11", features = ["derive"] }
serde = { version = "1", features = ["derive"] }
serde_json = "1"
sp-core = "36.1"
sp-io = "40.0"
sp-runtime = "41.1"
sp-std = "14"
