# stakenote

A Verus-verified library for the StakeNote private leader-election prototype:
Ristretto outputs with Pedersen amount commitments, CLSAG ring signatures over
block messages, ECVRF helpers, 64-bit Bulletproof range proofs, and the hex /
binary encodings of signatures and blocks.

Layout:

- `src/group.rs` — points and scalars held by their canonical 32-byte encodings;
  all group arithmetic and SHA-512 are calls into `curve25519-dalek` and `sha2`,
  named by uninterpreted spec functions.
- `src/encoding.rs`, `src/helpers.rs` — integer byte orders, hex encoding and the
  tolerant hex decoder, with their round-trip lemmas.
- `src/output.rs` — the generators G1, G2, GPAY, GVRF, commitments and outputs.
- `src/clsag.rs` — signing and verification, the binary/hex form of signatures,
  and the completeness lemma (a signature made by `clsag_sign` verifies, under
  the prime-order group laws stated in `ristretto_group_laws`).
- `src/vrf.rs`, `src/bulletproof.rs` — the VRF and range-proof steps over
  `vrf-r255` and `bulletproofs`.
- `src/structs.rs` — the protocol data, its hex (JSON) form and the proved
  conversions both ways.
- `src/execution.rs` — the computing steps of one round (ring, VRF key, block).
- `app/` — the program: the round loop with timings and printing, JSON files
  through `serde_json`, and the eligibility test, which is multi-precision
  floating point (`rug`).
