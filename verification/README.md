# snarkvm_verified

A verified core of a zero-knowledge virtual machine, written in Verus.

- `src/mode.rs`, `src/circuit.rs`: the visibility of circuit values and the
  constraint environment that counts variables and constraints.
- `src/boolean.rs`, `src/traits.rs`: circuit booleans and their gates.
- `src/bits.rs`, `src/integers.rs`: fixed-width integers over bits, with
  checked addition, wrapping multiplication and checked shift right.
- `src/store/`: the stores of transitions, executions, transactions and
  blocks, and `src/ledger.rs`, the ledger that reads from them.
- `src/cli.rs`: the command line; `src/circuit_id.rs`: circuit identifiers in
  hex; `src/parallel.rs`: a pool of tasks and the choice of a thread count.
- `src/prover_state.rs`: the state with which the prover starts a batch
  of circuits; `src/function_bytes.rs`: the byte layout of a function.
- `app/`: the program, which reads the command line with clap, and runs work
  on a rayon thread pool.
- `tests/`: tests of the library on concrete values.
