# staking_keeper

The verified core of a keeper for a staking protocol on Solana.

- `src/` (verified with Verus): the account indexes (`keyed_map`, `accounts`),
  the caches derived from them (`caches`), the decisions taken on each
  message of the account stream (`stream`), the plan of a multi-transaction
  stake claim and the retry policy of its simulations (`claim`), the account
  layout of the round-resolution instruction (`instructions`) and the
  derivation of account discriminators (`discriminator`).
- `app/`: the program around it: the gRPC subscription, decoding of the
  on-chain accounts into the library's models, locking, and the building,
  simulation and sending of transactions.
- `tests/`: scenarios for each module.
