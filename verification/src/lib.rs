//! Observable values: a mutable holds a value and tells the signals made from
//! it when the value changes, and a memo caches a value computed from other
//! readers and recomputes it only when one of them has changed.
//!
//! The state shared by the handles lives in a `SignalStore`; every handle
//! names its part of the store, and every operation takes the store.
//!
//! What this design asks of its users:
//!
//! - A store holds values of one type `A`; every mutable and memo of a store
//!   has that type, so the computations `Compute1` to `Compute5` read values
//!   of `A` and produce a value of `A`.
//! - The mapping functions of `signal_ref` and of the computations are `Fn`
//!   closures, called through a shared reference.
//! - A handle knows nothing of the store it belongs to, so the operations
//!   that change the store's bookkeeping are methods that take the store:
//!   `clone` and `drop` of a `Mutable` (a sender more or less), `drop` of a
//!   signal, and the constructors `new`, `from` and `default`. A handle that
//!   goes out of scope without `drop` keeps its part of the store alive.
//! - The store never reclaims a notifier slot: every signal and memo made
//!   adds one, and a dropped signal only marks its slot as unused, which the
//!   next notification of its cells removes from their lists. Reusing a slot
//!   would give a new signal the index of a notifier that a cell may still
//!   list and that the laws treat as ended for good.
pub mod laws;
pub mod memo;
pub mod model;
pub mod mutable;
pub mod signal;
pub mod store;
pub mod task;

pub use memo::{
    ChangedWakerWrapper, Compute, Compute1, Compute2, Compute3, Compute4, Compute5, Memo,
    MemoSignal, MemoSignalCloned, MemoSignalRef, Reader,
};
pub use mutable::{
    Mutable, MutableLockMut, MutableLockRef, MutableSignal, MutableSignalCloned, MutableSignalRef,
    ReadOnlyMutable,
};
pub use signal::Signal;
pub use store::SignalStore;
pub use task::Poll;
