# umbra_exchange

A verified core for a privacy-preserving threat-intelligence exchange:
contributors prove in zero knowledge that they observed an indicator, a
relay scores the proven observations, exports STIX and MISP, and a
Groth16 trusted-setup ceremony produces the proving keys.

- `src/` is the library, written in Verus; every function there carries a
  contract that Verus proves. Calls into arkworks, `light-poseidon`,
  `curve25519-dalek`, `blake2` and friends go through small trusted
  wrappers whose doc comments say what each one claims.
  - `tables`, `accumulator`: the reputation accumulator (per-indicator,
    per-epoch scores with replay protection).
  - `text`, `ip`, `indicator_kind`, `indicator`: indicator classification,
    normalization and hashing to a field element.
  - `field`, `poseidon`, `merkle`, `observation`: BN254 field elements,
    Poseidon parameters, Merkle paths and the proof-of-observation
    statement.
  - `encoding`, `relay`: wire encodings and the relay's state machine.
  - `stix`, `misp`: exports.
  - `psi`: private set intersection over Ristretto.
  - `curve`, `setup`, `ceremony`, `phase1`, `phase2`, `bridge`: the setup
    ceremony (powers of tau, the bridge to a circuit's proving key, and
    the per-circuit delta contributions with their transcript).
- `app/` is the command-line program and HTTP server around the library,
  plus the arkworks constraint system of the circuit.
- `tests/` runs the library against the real outside crates.
