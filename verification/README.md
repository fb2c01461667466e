# arc-crypto

Cryptographic primitives of the ARC chain, written in Verus: hashing and commitments, Merkle trees,
signatures, threshold schemes, proofs and their aggregation, a rollup, and the rules for private
files.

- `src/` is the library. Every function in it is verified against the contract in its header.
  Calls into other crates stand behind small functions marked `external_body`, whose contracts say
  what is taken for granted of those crates.
- `tests/` runs the library with those crates linked.
- `app/` is ordinary Rust around the library: serde forms, error types, floating-point figures, the
  Stwo prover (feature `stwo-prover`) and the file system.

A proof function named `law_..` states something that holds across several functions.
