# pep_core

The core of the PEP chain and of the PEPDEX order-routing engine, written in
Verus: every function in `src/` carries a `requires`/`ensures` contract that
Verus proves, and the laws of the library are stated as public proof
functions beside the code they speak of.

## Layout

- `src/blockchain/` — accounts and assets (`state`, `asset`), transactions and
  blocks with their text forms, Merkle proofs, proof of work and difficulty,
  the chain (`blockchain`), the node's mempool and admission, the peer
  protocol (`network`: message framing, payload texts, peers, bootstrap) and
  the text codecs of the on-disk stores (`storage`).
- `src/pepdex/` — the order engine: order books and their aggregation,
  routing, splitting, dispatch to venues, execution aggregation, risk checks,
  reservations on the balance ledger, settlement, reconciliation, the order
  store and its journal, and the venue adapters (Aster over its REST service).
- `src/text.rs`, `src/assoc.rs`, `src/clock.rs` — text, association-list and
  clock helpers the modules share.
- `app/` — the node program: file and network I/O, threads, HTTP servers and
  clients, around the library.
- `tests/` — tests run against the compiled library.

Calls into outside crates (`sha2`, `hex`, `primitive-types`, `reqwest`,
`serde_json`) and the few `std` functions Verus has no specification for go
through small trusted wrappers, each with a doc comment saying what its
contract claims.
