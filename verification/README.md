# sui-benchmark

The decision logic of a load generator for a Sui network, verified with Verus.

- `src/` is the verified library: how a primary coin is split into gas coins
  and paid out (a state machine over the network's answers), how SUI is
  transferred with retries, how the created coins are divided among the
  workloads, how transfer-object payloads pass tokens between accounts, and
  how payloads of several workloads are combined and drawn by weight.
  Outside crates are called behind a few trusted wrappers: `bcs` (encoding the
  split amounts), `rand_distr`/`rand` (weighted drawing) and `itertools`
  (grouping gas coins by owner).
- `tests/` runs the library on concrete values.
- `app/` is the asynchronous driver: it talks to the validators, signs with
  the accounts' key pairs (which the library refers to by handle), sleeps and
  retries as the library's state machines ask.
