# microstack

Verified core of MicroStack, a set of microlending contracts for Stellar Soroban.

- `src/` (verified with Verus): one module per contract. Each contract's instance
  storage is a plain struct (`LendingPool<A>`, `Microlending<A>`,
  `CollateralLiquidation<A>`, `OracleInterface<A>`, `InterestStrategy`, with `A`
  the host's address type). Each entry point is a method that either refuses the
  call with a `ContractError` and leaves everything unchanged, or updates the state
  and the caller's per-account record and returns the token movements (`TokenOp`)
  the host has to perform. Every method is specified by an `*_result` spec function,
  and the `lemma_*` proof functions state the laws of the contracts.
- `app/`: the Soroban contracts themselves. They authenticate the caller, read
  contract storage, call the library, write storage back and drive the token
  clients.
- `tests/`: tests of the library on concrete values.
