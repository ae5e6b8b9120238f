# chain_contracts

The decision logic of three small on-chain programs, verified with Verus:

- `counter`: an account whose counter is reset by `create` and grows by one
  with `increment`.
- `voting`: a CosmWasm-style poll contract. `contract` holds the entry logic
  (`instantiate`, `execute`, `execute_create_poll`, `execute_vote`), `tally`
  the model of votes and the laws that tie a poll's counts to its ballots.
- `sudt`: a simple user-defined token type script: owner mode, amount
  decoding and the rule that a transfer never creates tokens.

The host's work (storage, address validation, serialisation, syscalls)
stands in `app/`, which loads the values that the verified functions read and
stores what they return.
