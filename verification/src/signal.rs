//! Values that change over time, observed by polling.
use vstd::prelude::*;

use crate::model::StoreModel;
use crate::store::SignalStore;
use crate::task::Poll;

verus! {

/// A signal: polling it reports the current value when it has changed since
/// the last poll, its end, or that nothing new is ready yet.
pub trait Signal {
    type Item;

    /// The type of the values held in the store the signal reads.
    type Value;

    /// The signal belongs to the store `s`.
    spec fn valid(&self, s: StoreModel<Self::Value>) -> bool;

    /// The notifier of the signal.
    spec fn notifier(&self) -> usize;

    /// `v` is a value a poll may report when the store is in state `s`.
    spec fn reports(&self, s: StoreModel<Self::Value>, v: Self::Item) -> bool;

    /// The functions a poll may run in state `s` accept what they are given
    /// there.
    spec fn accepts(&self, s: StoreModel<Self::Value>) -> bool;

    proof fn lemma_valid_extends(&self, s1: StoreModel<Self::Value>, s2: StoreModel<Self::Value>)
        requires
            self.valid(s1),
            s2.extends(s1),
        ensures
            self.valid(s2),
    ;

    fn poll_change(&self, store: &mut SignalStore<Self::Value>, cx: &std::task::Context) -> (r: Poll<
        Option<Self::Item>,
    >)
        requires
            old(store)@.wf(),
            self.valid(old(store)@),
            self.accepts(old(store)@),
        ensures
            final(store)@.wf(),
            final(store)@.extends(old(store)@),
            final(store)@.values() == old(store)@.values(),
            !final(store)@.wakers[self.notifier() as int].changed,
            old(store)@.wakers[self.notifier() as int].changed ==> (r matches Poll::Ready(Some(b))
                && self.reports(old(store)@, b)),
            !old(store)@.wakers[self.notifier() as int].changed && old(store)@.wakers[self.notifier() as int].closed
                ==> r matches Poll::Ready(None),
            !old(store)@.wakers[self.notifier() as int].changed && !old(store)@.wakers[self.notifier() as int].closed
                ==> r matches Poll::Pending,
    ;
}

} // verus!
