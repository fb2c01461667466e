[package]
name = "arc-crypto"
version = "0.1.0"
edition = "2021"
publish = false

[dependencies]
blake3 = "1"
blst = "0.3"
curve25519-dalek = { version = "4", features = ["rand_core", "digest"] }
ed25519-dalek = { version = "2", features = ["rand_core", "batch"] }
fips204 = "0.4"
hex = "0.4"
k256 = { version = "0.13", features = ["ecdsa"] }
libc = "0.2"
num-traits = "0.2"
pqcrypto-falcon = "*"
pqcrypto-traits = "*"
rand = "0.8"
rayon = "1"
serde = { version = "1", features = ["derive"] }
sha2 = "0.10"
stwo = { version = "*", features = ["prover", "parallel"] }
stwo-constraint-framework = { version = "*", features = ["prover"] }
thiserror = "2"
windows-sys = { version = "0.59", features = ["Win32_Foundation", "Win32_Security", "Win32_Security_Authorization", "Win32_Storage_FileSystem", "Win32_System_SystemServices", "Win32_System_Threading"] }
