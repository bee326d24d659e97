[package]
name = "kmer_snp"
version = "0.1.0"
edition = "2021"
publish = false

[dependencies]
tfhe = { version = "=0.6.4", features = ["boolean", "shortint", "integer", "x86_64-unix"] }
rayon = "=1.12.0"
