# knit

The rules of the `knit` multi-repo tool as a verified library: land plans
and runs (ordering, waves, readiness, rollback), merge runs, publishing
scope and PR bodies, pulls, reverts, KnitHub sync decisions (remotes,
ledgers, artifact pushes, repository records), credential targets and
project configuration. Verus proves the library; nearly every function in
`src/` carries a contract, and the few calls into `std` and the `url` crate
that it cannot see into stand behind small trusted wrappers whose contracts
say what those calls return.

- `src/` — the library, one module per concern; `text.rs`, `order.rs` and
  `str_map.rs` hold the shared string, ordering and sorted-map pieces.
- `tests/` — tests run against the compiled library.
- `app/` — the runtime around it: HTTP to remotes, git and process
  execution, environment tokens, and JSON artifacts.
