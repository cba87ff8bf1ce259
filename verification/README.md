# mev_bot

A watcher for one sender's pending calls to one contract. When such a call
(method selector `380f9c38`) shows up in the node's pending block, the watcher
sends a replacement transaction to the same contract: same value and
arguments, selector `b4206dd2`, fixed gas limit, boosted gas price. Each
pending transaction is answered at most once.

- `src/` — the verified library (Verus):
  - `config` — addresses, selectors, gas and polling settings;
  - `uint256`, `hex` — 256-bit numbers and hex text, over `ethers`;
  - `ascii`, `calldata` — byte comparisons and selector replacement;
  - `processed` — the set of handled transaction hashes;
  - `optimized` — the watcher over decoded transactions;
  - `ultra_fast` — the watcher over the raw JSON reply;
  - `request`, `stats` — the replacement transaction and the counters.
- `app/` — the binary: RPC polling, signing and sending, logging.
  `mev_bot` runs the decoded-transaction watcher, `mev_bot ultra-fast` the
  raw-JSON one. It reads `PRIVATE_KEY` and `CHECK_RPC_URL` from the
  environment.
- `tests/` — tests of the library on concrete values.
