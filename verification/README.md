# sorosusu_contracts

Contract logic of the SoroSusu savings-circle protocol on Soroban, written in Verus and
verified against its specifications.

- `src/passkey_auth.rs`: passkey (secp256r1 / WebAuthn) registration, authentication,
  challenges and preferred-method management, next to ordinary account signatures.
- `src/sbt_minter.rs`: reputation milestones and soulbound credentials.
- `src/yield_allocation_voting.rs`: reliability-weighted voting on how a circle's yield is
  split among strategies.
- `src/yield_distribution.rs`: the dust-free split of harvested yield between the round's
  recipient and the treasury.
- `src/collections.rs`: the keyed maps that model contract storage.
- `src/crypto.rs`: the cryptographic calls (p256 signature verification and the host's
  SHA-256). Challenge randomness is drawn from the host by the contract entry point in
  `app/` and handed to the verified code.

Each module keeps its storage in an explicit state value and states every operation as a
transition of that state. `app/` holds the Soroban contracts that read the touched storage
entries into that state, call the verified operation and write the entries back.
