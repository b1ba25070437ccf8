[package]
name = "umbra_exchange"
version = "0.1.0"
edition = "2021"
publish = false

[dependencies]
ark-bn254 = "0.4"
ark-ff = "0.4"
ark-ec = "0.4"
ark-serialize = "0.4"
ark-std = "0.4"
ark-poly = "0.4"
ark-relations = "0.4"
ark-r1cs-std = "0.4"
ark-snark = "0.4"
ark-groth16 = "0.4"
ark-crypto-primitives = { version = "0.4", features = ["crh", "sponge", "r1cs"] }
light-poseidon = "0.2"
curve25519-dalek = { version = "4", features = ["digest", "rand_core"] }
sha2 = "0.10"
blake2 = "0.10"
rand = "0.8"
rand_chacha = "0.3"
zeroize = { version = "1", features = ["derive"] }
hex = "0.4"
serde = { version = "1", features = ["derive"] }
serde_json = "1"
axum = "0.7"
tokio = { version = "1", features = ["rt-multi-thread", "macros", "net"] }
