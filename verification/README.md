# stellarflow_contracts

Verified core of the StellarFlow settlement contracts (Soroban), written in
Verus.

- `src/` is the library. Every function carries a `requires`/`ensures`
  contract proved by Verus; public `law_*` proof functions state the
  properties that relate several operations.
  - `amm/` – constant-product arithmetic over a 256-bit intermediate,
    slippage guard, tick prices and integer square root, the sorted tick
    index with liquidity placement and multi-tick swap simulation.
  - `consensus` – validator search, stake-weighted aggregation with
    duplicate-row compaction, quorum arithmetic, sequence checkpoints,
    ledger-gap and epoch-window checks, oracle fallback.
  - `fees` – corridor fee pools, weight profiles and high-precision fee
    splitting whose shares add up to the pool.
  - `governance`, `admin`, `staging` – signer tallies for upgrade quorums,
    ballots, nonces, two-phase ownership transfer, two-path admin change,
    emergency revocation, pause flag and the staging allowlist.
  - `settlement/htlc`, `escrow/timelock` – hash time-locked settlement and
    the dual-approval escrow.
  - `analytics`, `storage`, `events` – moving average, feed-stake rent
    expiry, event topic budget.
  - `host` – the Soroban host calls the logic makes (host vectors, SHA-256),
    each behind a small trusted wrapper with its contract.
- `app/` is the contract glue: it reads and writes ledger storage, publishes
  events, checks authorization and moves tokens around the library's
  decisions.
- `tests/` exercise the library on concrete values.
