# paillier_php

Paillier homomorphic encryption over base-36 texts, built on the `fast-paillier`
crate and verified with Verus. Keys, ciphertexts and plaintexts travel as base-36
strings; a decryption key is its two primes joined by `||`.

Layout of `src/`:

- `radix.rs` — the base-36 reading and writing of integers (specification and the
  proof that reading the canonical text gives the integer back).
- `key_text.rs` — splitting a decryption key text at `||`.
- `paillier.rs` — the arithmetic of the scheme: the group checks, what an
  encryption is, and the homomorphic laws (sums and scalar multiples).
- `bignum.rs` — integers as plain values and the integer operations of
  `fast-paillier` on them.
- `scheme.rs` — Paillier keys and the key, encryption, decryption and homomorphic
  operations of `fast-paillier`, with their contracts.
- `ops.rs` — reading keys, encrypting a message, decrypting, adding and scaling.
- `api.rs` — the functions on texts that the PHP extension exposes.
- `sums.rs` — the proof that the sum of a list of ciphertexts depends only on the
  multiset of its ciphertext texts, not on their order or keys.

`app/` holds the PHP extension itself (built with `ext-php-rs`).
