[package]
name = "stakenote"
version = "0.1.0"
edition = "2021"
publish = false

[dependencies]
curve25519-dalek = { version = "4", features = ["digest", "rand_core"] }
bulletproofs = "*"
merlin = "3"
sha2 = "0.10"
hex = "0.4"
rand = "0.8"
rand_core = { version = "0.6", features = ["getrandom"] }
subtle = "2"
vrf-r255 = "*"
rug = "*"
serde = { version = "1", features = ["derive"] }
serde_json = "1"
