# chainstate

The chain of a Bitcoin node that keeps no set of unspent outputs. Headers and the best chain live in
a store behind a trait; what can be spent is kept as the roots of a Utreexo accumulator, and every
block brings a proof for what it spends.

- `src/` is the library, and its logic is proved by Verus against its contracts. What a store
  answers is never assumed: contracts relate the answers of the store, the state before and after,
  and the list of everything that went out to the store and to those who listen, in order.
- `src/laws.rs`, and the `law_` functions beside the definitions they are about, state what holds of
  the library as a whole: what a refused block leaves alone, what a saved accumulator and a saved
  chain read back as, when transactions are accepted, how a locator goes down the chain.
- Hashing, scripts, the arithmetic of targets and the accumulator itself come from the `bitcoin`,
  `sha2` and `rustreexo` crates. Each call stands in a small function of its own, whose contract says
  what is relied on.
- `app/` puts the chain behind a lock, tells listeners about a new block before the store is told,
  and converts from and to the types of the `bitcoin` crate.
- `tests/` runs the library over a store in memory.
