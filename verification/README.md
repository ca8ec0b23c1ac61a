# nexara

The verified core of the NEXARA blockchain: a sharded Layer 1 chain with
ML-DSA-sized signatures, BLAKE3 commitments and HybridSync consensus.

`src/` is a Verus library. Every function in it carries a contract that
Verus proves: hashing and key encodings (`crypto`), transactions, blocks,
the account state and genesis (`ledger`), supply, vesting, staking, fee
burning and protocol-owned liquidity (`tokenomics`), validators, committee
sortition, delegation, slashing, finality proofs, trust scoring and the
attestation engine (`consensus`), cross-chain transfers and their
adapters (`bridge`), the fee-ordered mempool (`mempool`), peer management,
discovery, gossip and handshakes (`network`), and shard assignment, the
beacon chain and cross-links (`shard`). The only unproved parts are small
wrappers around `blake3`, `sha3`, `hex`, `rand` and `chrono`, each stating
in its doc comment what it claims of the call, and the specifications
assumed for std's `String::push` and `String::push_str`.

`app/` is the node program: command-line parsing, reading the
configuration file, the JSON-RPC handler registry, decoding blocks and
transactions from bincode, parallel batch signature checks, logging and
the async runtime. `tests/` exercises the library.
