# silmarils

A verified library for the two-party transferable designated-verifier (TDV) signatures of
SILMARILS, with 2-out-of-2 (and general k-out-of-n) Shamir secret sharing, over the prime
field GF(p), p = 2^256 - 2^32 - 977 (the secp256k1 base field).

## Layout

- `src/field.rs` — `FieldElement` (canonical limbs, viewed as an integer in `[0, p)`), the
  field operations, and the trusted wrappers over `ark_secp256k1::Fq` and its random sampling.
- `src/hashing.rs` — trusted wrappers over SHA-256, HMAC-SHA-256, HKDF-SHA-256 and hexadecimal
  decoding. The hash functions are named (`sha256_digest`, `hmac_sha256_tag`,
  `hkdf_sha256_okm`), not written out.
- `src/shamir.rs` — `split`, `split_with_coefficients`, `evaluate_polynomial`, `reconstruct`.
  `reconstruct` states that shares of a polynomial of degree below their number give its
  constant term.
- `src/signature.rs` — key derivation, receipts, signing, designated / receipt /
  unauthenticated verification, and the algebraic forgery, each with an exact contract over
  the spec functions at the top of the file.
- `src/lagrange.rs` — the proof that Lagrange interpolation at zero recovers the constant term,
  that interpolation is linear in the values, that Horner evaluation is the power sum, and that
  one share of a two-share sharing fits every secret.
- `src/binding.rs` — soundness laws: a signature verifies against at most one receipt, and
  changing `sigma_1`, `sigma_3` or `sigma_5` of a verifying signature makes it fail.
- `src/correctness.rs` — completeness of verification and success of the forgery against
  unauthenticated verification.
- `src/algebra.rs` — congruence modulo p and the ring and inverse facts the proofs use.
- `app/main.rs` — the interactive demonstration (reads a seed and a message, prints keys, the
  signature and the verification results).

## Message digest and receipt

- Nonce: `n = HMAC_k("silmarils-nonce" || M)` reduced into GF(p).
- Receipt: `r = SHA-256(M || encode(n))` reduced into GF(p).
- Per-message key: `K' = HMAC_K("silmarils-pmk" || M)` reduced into GF(p).
- Public points: `(w0, w1) = HKDF-Expand(K, "silmarils-public-key")`, two 32-byte halves.

## What rests on trust

The contracts of the wrappers in `field.rs` and `hashing.rs`. The field laws that need every
nonzero residue to be invertible (`lemma_reconstruction_recovers_secret`,
`lemma_signature_verifies`, `lemma_forgery_passes_unauthenticated`) take that fact,
`modulus_is_field()`, as a hypothesis; the same laws are also stated, without it, in the
contracts of `reconstruct`, `verify_designated`, `verify_with_receipt` and
`verify_unauthenticated`, where the divisions performed at run time supply the inverses.
