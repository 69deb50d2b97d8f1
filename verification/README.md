# betcube

Betting exchange logic, verified with Verus.

- `src/` is the library. It keeps the state of the contracts as plain data
  (bets, markets, order books, schedulers, betslips, peer-to-peer bets) and
  states what every operation does to it in its contract:
  - `bet`, `orderbook`, `tracker`, `market`, `fund`, `nft`, `validation`,
    `storage`: the order-book exchange (placing, matching, cancelling,
    settling and claiming bets);
  - `cube`: the exchange whose selections keep a queue of scheduled bets;
  - `slip`: betslips of combined bets and peer-to-peer bets;
  - `priority_queue`, `utils`, `encoding`, `types`, `events`, `errors`:
    shared parts.
  Operations that need the chain (minting an NFT, sending funds, the time)
  come in two steps: the library decides what to mint or send, the caller
  does it and hands back the result.
- `app/` runs the endpoints over a host that knows the call and performs
  what the library decides.
- `tests/` exercises the library on concrete values.
