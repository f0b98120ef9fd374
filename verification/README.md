# pulse_market

A prediction market on a smart-contract ledger, with three companions: a
leaderboard of decaying scores, a capped reward token, and a registry of display
names and referrals. The contracts' logic is a library verified with Verus.

Each contract is a plain state value with a mathematical view. An entry point
decides on that state and on the ledger position; it either refuses, with an
error and no change, or leaves a new state and a list of what the host has to do:
authorizations, transfers, calls to other contracts, events, renewals. Its
contract says which of the two happens for every input, and what is left behind.

## Layout

- `src/address.rs`, `env.rs`, `table.rs`, `sums.rs`: addresses, the environment of
  a call, key-value storage, sums over storage.
- `src/pulse_token/`, `src/leaderboard/`, `src/referral_registry/`,
  `src/prediction_market/`: the four contracts. In each, the state and the meaning
  of every entry point stand apart from the code, and the laws that hold of the
  contract as a whole are public proof functions named `law_...`.
- `tests/`: the contracts together on a small ledger.
- `app/`: the contracts as the host runs them, on `soroban-sdk`: storage, addresses,
  transfers, calls, events.

## What is proved

Among the laws of the market: whatever is called after deployment, it holds at
least what it owes (`prediction_market/laws.rs`); payouts take up the pool but for
less than one unit each (`completeness.rs`); nobody claims or is refunded twice, and
no refund exceeds what was paid in (`finality.rs`); the contracts it works with are
replaced only after a delay and with enough approvals (`governance.rs`); no resolver
has a stake in an open market (`history.rs`). Of the token: the supply is the sum of
what is held and stays under its cap, and a declared cap is never raised. Of the
leaderboard: the order of the ranking, the bounds of the list, that scoring touches
one entry, and how scores decay. Of the registry: every fee is passed on whole, and records
stick.
