# exchange_core

A deterministic, single-writer compute exchange using simulated microcredits,
written in Verus. Buyers fund accounts and submit jobs; workers register one
offer each; every new offer or job triggers a matching pass that reserves, for
each queued job in arrival order, the cheapest available offer at or below its
maximum price (earliest arrival among equal prices). A command either succeeds
in full or is rejected with the exchange left exactly as it was.

Layout of `src/`:

- `types.rs`: identifiers, balances, jobs, offers, reservations, commands,
  events and errors.
- `arith.rs`: checked arithmetic reporting `ArithmeticOverflow` and `ZeroValue`.
- `model.rs`: the exchange as a pure state machine; `step` says what every
  command does, or which error rejects it.
- `sums.rs`: sums over finite sets and maps, used to state conservation of funds.
- `invariants.rs`: the bookkeeping invariant and the proofs that each command
  keeps it.
- `exchange.rs`: the executable `Exchange`, whose state invariant is a type
  invariant and whose `execute` is proved to follow `step` exactly; the
  command logic works on the private `Ledger` inside it.
- `laws.rs`: the laws of the exchange, proved: conservation of funds, holds
  matching reserved funds, reservation consistency, cheapest-then-earliest
  matching, immediate matching, the history kept by every accepted command,
  cancellation undoing a queued submission, valid stored records, and more.

`app/main.rs` runs the demonstration scenario and prints its events and final
state; `tests/` exercises the library on concrete scenarios.
