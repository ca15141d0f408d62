[package]
name = "vmsnark"
version = "0.1.0"
edition = "2021"
publish = false

[dependencies]
ark-ff = "0.4"
ark-ec = "0.4"
ark-std = "0.4"
ark-snark = "0.4"
ark-relations = "0.4"
ark-r1cs-std = "0.4"
ark-groth16 = { version = "0.4", features = ["r1cs"] }
ark-crypto-primitives = { version = "0.4", features = ["crh", "sponge", "r1cs", "snark"] }
ark-mnt4-298 = { version = "0.4", features = ["r1cs"] }
ark-mnt6-298 = { version = "0.4", features = ["r1cs"] }
parity-wasm = "0.45"
