# rusty_coin

A small UTXO blockchain, verified with Verus: transactions signed with
secp256k1, blocks with Merkle roots and proof of work, a chain that
validates and appends blocks, and the rules by which its nodes handle
messages.

## Layout

- `src/` — the verified library.
  - `blockchain/` — transactions and their byte encoding, script
    signatures, signing and verification, Merkle trees, blocks, the UTXO
    set, and the chain with its validation rules.
  - `mining/` — compact difficulty targets and the nonce search.
  - `network/` — messages, their framing, and the decisions a node takes
    on each message it receives.
  - `wallet.rs` — building and signing a payment from a sender's outputs.
  - `utils/` — double SHA-256, ECDSA and key-pair files.
- `app/` — the programs around the library: TCP nodes, the mining loop,
  files, and the serde forms of the messages.
- `tests/` — tests of the library, run against the real outside crates.

Calls into `sha2`, `secp256k1`, `hex` and the system clock go through small
trusted wrappers whose contracts are stated next to them; everything else
in `src/` is proved.
