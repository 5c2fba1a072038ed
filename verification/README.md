# mutable_signals

Observable values, verified with Verus.

A `Mutable` holds a value; signals made from it report the value whenever it
has changed since they were last polled, and report their end once the last
`Mutable` handle of the value is gone. A `Memo` caches a value computed from
readers (mutables or other memos) and recomputes it only when a value it
depends on has changed.

The state that the handles share (values, notifiers, memo caches) lives in a
`SignalStore`; handles name their part of it, and every operation takes the
store. This keeps all shared, changing state in one place that the contracts
can describe.

## Layout

- `src/model.rs`: the mathematical model of the store (`StoreModel`), its
  invariant (`wf`: every memo that reports no change holds a value that its
  computation produces from the current values, and a cell without senders
  has no listeners), the transitions the
  operations perform, and the lemmas that each transition keeps the invariant.
- `src/store.rs`: the executable store, the change notifier (`ChangedWaker`)
  and the notification of a cell's listeners.
- `src/mutable.rs`: `ReadOnlyMutable`, `Mutable`, their locks and signals.
- `src/memo.rs`: the `Reader` and `Compute` traits, `Memo`, its signals and
  the computations `Compute1` to `Compute5`.
- `src/signal.rs`: the `Signal` trait.
- `src/laws.rs`: properties that relate several operations.
- `src/task.rs`: the parts of `std::task` that signals use.
- `app/`: serde support, debug representations and the conversion of poll
  results to `std::task::Poll`.
