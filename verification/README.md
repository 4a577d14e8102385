# FerroGate

The core of a machine identity service, verified with Verus: hosts attest their
hardware, are admitted by a signed fleet manifest, and get short-lived identity
documents; what happened is kept in a transparency log.

- `src/crypto` — the composite Ed25519 + ML-DSA-65 signature, its encodings, SPKI
  pins, and which TLS groups and ciphers are offered.
- `src/attest` — TPM quotes, attestation keys, vendor certificate chains,
  approved boot states and the signed bundles that carry them, and evidence of
  hosts without a TPM.
- `src/audit` — the log: events, Merkle tree and proofs, tree heads, heads signed
  by a quorum, records on disk, and the queue of heads that wait for an anchor.
- `src/cmis` — the service: the attestation handshake, enrolment, host keys,
  published keys and the revocation list that goes with them, renewal, caller allowlists, settings, and agreement
  on the issuer's seed.
- `src/ceremony` — cross-signing, sealed shares, minutes and destruction.
- `src/child_verify.rs` — child tokens that are bound to their sender's key.
- `src/harden.rs` — the order in which a process is hardened, and its filter.
- `src/machineid.rs` — fingerprints of hardware.
- `src/primitives`, `src/collections.rs` — what the rest is built from. Calls into
  other crates stand in `src/primitives`, `src/harden.rs`, `src/cmis/transport.rs`,
  `src/crypto/transport.rs` and `src/crypto/der.rs`, each behind a function whose
  contract is trusted and says what it claims.
- `app` — the process around the library: files, sockets, TLS, system calls, JSON.
- `tests` — the library from outside.

Public proof functions named `law_…` state what holds across functions: that what
is sealed verifies, that proofs of inclusion and consistency are sound and
complete, that a document is only issued on accepted evidence, and the like.
