# kor-assetforge contracts, verified

The logic of two Soroban contracts, an asset token and a marketplace, as verified state
machines.

- `src/` is the library, checked by Verus. Each contract is a state type (`AssetToken`,
  `Marketplace`) whose operations take the state and plain inputs (addresses as strkey
  text, the ledger time, whether the emergency-control contract reports the operation
  paused, the governance verdict) and return the new state and the event to publish, or
  the reason for refusal. Their contracts are stated over `TokenState` and `MarketState`
  (`token_model.rs`, `market_model.rs`); `token_laws.rs` and `market_laws.rs` prove the
  properties that span calls. The token invariant keeps the total supply equal to the sum
  of all balances.
- `app/` holds the Soroban contracts themselves: storage, authorization, calls to the
  emergency-control and governance contracts, and events.
- `tests/` runs the library.
