# Prediction market

A price prediction market on a virtual token, with its rules verified by Verus.

Users stake tokens on the price of an asset. In an Up/Down round they bet on the direction in
which the price moves: the winners get their bets back and share the losers' pool in proportion
to their bets, and everybody gets the bet back where the price has not moved. In a Precision
round they predict the price: the closest prediction takes the pot, and equally close ones split
it. An administrator opens the rounds, and an oracle ends them with the price that was reached.

- `src/` is the library. `contract.rs` and `resolution.rs` hold the operations on a `Ledger`.
  `state.rs` says what each request makes of the state, or why it is refused, and
  `settlement.rs` what a resolved round pays. `laws.rs` and `payouts.rs` prove what holds of all
  requests and of all payouts. `host_map.rs` and `host_vec.rs` hold what is believed of the
  host's maps and lists.
- `app/` is the contract for the Soroban host: it reads and writes the host's storage, has the
  host check authorisations, and publishes the events.
- `tests/` runs the library with the host's own maps and lists.
