# Ember CPU miner

A CPU and CUDA miner for the browser mining API of an Ember node. It fetches a template, hashes
the block header as JSON with Keccak-256 for one nonce after another, and submits a block whose
hash, read as a 256-bit number, is at most the target.

What the miner decides and computes is a library that is verified with Verus:

- `src/text.rs`, `src/numbers.rs`: numerals, columns, cuts and lists in text
- `src/config.rs`: the command line
- `src/target.rs`: 256-bit targets
- `src/work.rs`: block headers, the message to hash and its hash
- `src/mining.rs`: the workers on the CPU
- `src/cuda.rs`: what GPUs are told and what is made of their reports
- `src/node.rs`: addresses, submissions and answers of the node
- `src/session.rs`: what follows what in a run, and its counts
- `src/dashboard.rs`: the dashboard

`app/` is the program around it: HTTP, JSON, threads, kernel launches, hash rates in floating point
and the terminal. `tests/` runs the library on examples.

Proof functions whose names begin with `law_` state what holds of the library as a whole.
