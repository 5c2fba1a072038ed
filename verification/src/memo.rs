//! Memos: a value computed from readers (mutables or other memos), cached,
//! and recomputed on a read only when one of the cells it depends on has
//! changed since the last computation.
use std::sync::Arc;
use vstd::prelude::*;

use crate::model::{
    agree_on, fresh_waker, lemma_add_memo_wf, lemma_extends_trans, lemma_listens_trans, lemma_listens_wf,
    lemma_new_waker_wf, lemma_refresh_wf, lemma_refreshed_extends, lemma_refreshed_refl,
    lemma_not_memo_waker_extends, lemma_refreshed_trans, lemma_with_waker_wf, StoreModel, WakerModel,
};
use crate::signal::Signal;
use crate::mutable::{MutableSignalCloned, ReadOnlyMutable};
use crate::store::SignalStore;
use crate::task::{context_waker, Poll};

verus! {

/// Calls `<Arc<C> as Clone>::clone`, which hands back another pointer to the
/// same value.
#[verifier::external_body]
fn share<C>(a: &Arc<C>) -> (r: Arc<C>)
    ensures
        *r == **a,
{
    a.clone()
}

/// The notifier handed to a reader that should tell it about changes.
pub struct ChangedWakerWrapper(usize);

impl ChangedWakerWrapper {
    pub closed spec fn id(&self) -> usize {
        self.0
    }
}

/// A source of values that can be read, and listened to, through a store.
pub trait Reader: Clone {
    type Item: Clone;

    /// The signal of clones of the values read.
    type ItemSignal: Signal<Item = Self::Item, Value = Self::Item>;

    /// The cells whose values a read depends on.
    spec fn leaves(&self) -> Set<usize>;

    /// `v` is a value a read may give when the cells hold `values`.
    spec fn produces(&self, values: Seq<Self::Item>, v: Self::Item) -> bool;

    /// The reader belongs to the store `s`.
    spec fn valid(&self, s: StoreModel<Self::Item>) -> bool;

    /// The functions a read may run accept their inputs when the cells hold
    /// `values`.
    spec fn accepts(&self, values: Seq<Self::Item>) -> bool;

    proof fn lemma_valid(&self, s: StoreModel<Self::Item>)
        requires
            self.valid(s),
        ensures
            forall|c: usize| #[trigger] self.leaves().contains(c) ==> c < s.cells.len(),
    ;

    proof fn lemma_valid_extends(&self, s1: StoreModel<Self::Item>, s2: StoreModel<Self::Item>)
        requires
            self.valid(s1),
            s2.extends(s1),
        ensures
            self.valid(s2),
    ;

    proof fn lemma_frame(&self, v1: Seq<Self::Item>, v2: Seq<Self::Item>, x: Self::Item)
        requires
            agree_on(v1, v2, self.leaves()),
        ensures
            self.produces(v1, x) == self.produces(v2, x),
    ;

    /// Registers `waker` on every cell the reader depends on that can still
    /// change.
    fn subscribe(&self, store: &mut SignalStore<Self::Item>, waker: &ChangedWakerWrapper)
        requires
            old(store)@.wf(),
            self.valid(old(store)@),
            waker.id() < old(store)@.wakers.len(),
            !old(store)@.is_memo_waker(waker.id()),
            !old(store)@.wakers[waker.id() as int].closed,
        ensures
            final(store)@.wf(),
            final(store)@.listens(old(store)@, waker.id()),
            final(store)@.unchanged_outside(old(store)@, self.leaves()),
            forall|c: usize|
                #[trigger] self.leaves().contains(c) && old(store)@.cells[c as int].senders > 0
                    ==> final(store)@.cells[c as int].signals.contains(waker.id()),
    ;

    fn get(&self, store: &mut SignalStore<Self::Item>) -> (r: Self::Item)
        requires
            old(store)@.wf(),
            self.valid(old(store)@),
            self.accepts(old(store)@.values()),
        ensures
            final(store)@.wf(),
            final(store)@.refreshed_from(old(store)@),
            self.produces(final(store)@.values(), r),
    ;

    /// A signal whose first poll reports the value read.
    fn signal(&self, store: &mut SignalStore<Self::Item>) -> (r: Self::ItemSignal)
        requires
            old(store)@.wf(),
            self.valid(old(store)@),
        ensures
            final(store)@.wf(),
            final(store)@.extends(old(store)@),
            final(store)@.values() == old(store)@.values(),
            r.valid(final(store)@),
            r.notifier() == old(store)@.wakers.len(),
            final(store)@.wakers[r.notifier() as int] == fresh_waker(),
            final(store)@.listens(
                StoreModel { wakers: old(store)@.wakers.push(fresh_waker()), ..old(store)@ },
                r.notifier(),
            ),
            final(store)@.unchanged_outside(old(store)@, self.leaves()),
            forall|c: usize|
                #[trigger] self.leaves().contains(c) && old(store)@.cells[c as int].senders > 0
                    ==> final(store)@.cells[c as int].signals.contains(r.notifier()),
            forall|s: StoreModel<Self::Item>, v: Self::Item|
                r.valid(s) ==> (#[trigger] r.reports(s, v) == self.produces(s.values(), v)),
            forall|s: StoreModel<Self::Item>|
                r.valid(s) ==> (#[trigger] r.accepts(s) == self.accepts(s.values())),
    ;
}

/// A computation of a value from readers.
pub trait Compute: Sized {
    type Item: Clone;

    spec fn leaves(&self) -> Set<usize>;

    spec fn produces(&self, values: Seq<Self::Item>, v: Self::Item) -> bool;

    spec fn valid(&self, s: StoreModel<Self::Item>) -> bool;

    spec fn accepts(&self, values: Seq<Self::Item>) -> bool;

    proof fn lemma_valid(&self, s: StoreModel<Self::Item>)
        requires
            self.valid(s),
        ensures
            forall|c: usize| #[trigger] self.leaves().contains(c) ==> c < s.cells.len(),
    ;

    proof fn lemma_valid_extends(&self, s1: StoreModel<Self::Item>, s2: StoreModel<Self::Item>)
        requires
            self.valid(s1),
            s2.extends(s1),
        ensures
            self.valid(s2),
    ;

    proof fn lemma_frame(&self, v1: Seq<Self::Item>, v2: Seq<Self::Item>, x: Self::Item)
        requires
            agree_on(v1, v2, self.leaves()),
        ensures
            self.produces(v1, x) == self.produces(v2, x),
    ;

    fn subscribe(&self, store: &mut SignalStore<Self::Item>, waker: &ChangedWakerWrapper)
        requires
            old(store)@.wf(),
            self.valid(old(store)@),
            waker.id() < old(store)@.wakers.len(),
            !old(store)@.is_memo_waker(waker.id()),
            !old(store)@.wakers[waker.id() as int].closed,
        ensures
            final(store)@.wf(),
            final(store)@.listens(old(store)@, waker.id()),
            final(store)@.unchanged_outside(old(store)@, self.leaves()),
            forall|c: usize|
                #[trigger] self.leaves().contains(c) && old(store)@.cells[c as int].senders > 0
                    ==> final(store)@.cells[c as int].signals.contains(waker.id()),
    ;

    fn compute(&self, store: &mut SignalStore<Self::Item>) -> (r: Self::Item)
        requires
            old(store)@.wf(),
            self.valid(old(store)@),
            self.accepts(old(store)@.values()),
        ensures
            final(store)@.wf(),
            final(store)@.refreshed_from(old(store)@),
            self.produces(final(store)@.values(), r),
    ;
}

impl<A: Clone> Reader for ReadOnlyMutable<A> {
    type Item = A;

    type ItemSignal = MutableSignalCloned<A>;

    open spec fn leaves(&self) -> Set<usize> {
        set![self.cell()]
    }

    open spec fn produces(&self, values: Seq<A>, v: A) -> bool {
        self.cell() < values.len() && cloned(values[self.cell() as int], v)
    }

    open spec fn valid(&self, s: StoreModel<A>) -> bool {
        self.cell() < s.cells.len()
    }

    open spec fn accepts(&self, values: Seq<A>) -> bool {
        true
    }

    proof fn lemma_valid(&self, s: StoreModel<A>) {
    }

    proof fn lemma_valid_extends(&self, s1: StoreModel<A>, s2: StoreModel<A>) {
    }

    proof fn lemma_frame(&self, v1: Seq<A>, v2: Seq<A>, x: A) {
        assert(self.leaves().contains(self.cell()));
    }

    fn subscribe(&self, store: &mut SignalStore<A>, waker: &ChangedWakerWrapper) {
        self.push_waker(store, waker.0);
    }

    fn get(&self, store: &mut SignalStore<A>) -> (r: A) {
        proof {
            lemma_refreshed_refl(store@);
        }
        self.get_cloned(store)
    }

    fn signal(&self, store: &mut SignalStore<A>) -> (r: MutableSignalCloned<A>) {
        let ghost s0 = store@;
        let ghost w = s0.wakers.len() as usize;
        let ghost t = StoreModel { wakers: s0.wakers.push(fresh_waker()), ..s0 };
        let r = self.signal_cloned(store);
        proof {
            assert(store@.values() =~= s0.values());
            lemma_new_waker_wf(s0, w);
            crate::model::lemma_listens_refl(t, w);
            if s0.cells[self.cell() as int].senders != 0 {
                crate::model::lemma_push_signal_wf(t, self.cell(), w);
            }
            assert(self.leaves().contains(self.cell()));
        }
        r
    }
}

/// The cached computation shared by the handles of one memo.
pub struct Memo<C: Compute> {
    id: usize,
    compute: Arc<C>,
}

impl<C: Compute> Clone for Memo<C> {
    fn clone(&self) -> (r: Self)
        ensures
            r.index() == self.index(),
            r.computation() == self.computation(),
    {
        Memo { id: self.id, compute: share(&self.compute) }
    }
}

impl<C: Compute> Memo<C> {
    pub closed spec fn index(&self) -> usize {
        self.id
    }

    pub closed spec fn computation(&self) -> C {
        *self.compute
    }

    /// The memo's entry in the store records the cells and the relation of
    /// its computation.
    pub open spec fn valid(&self, s: StoreModel<C::Item>) -> bool {
        &&& self.index() < s.memos.len()
        &&& s.memos[self.index() as int].leaves == self.computation().leaves()
        &&& forall|v: Seq<C::Item>, x: C::Item| #[trigger]
            (s.memos[self.index() as int].rel)(v, x) == self.computation().produces(v, x)
        &&& self.computation().valid(s)
    }

    /// The notifier of the memo itself.
    pub open spec fn waker(&self, s: StoreModel<C::Item>) -> usize {
        s.memos[self.index() as int].waker
    }

    /// A memo stays valid in every later state of the store.
    pub proof fn lemma_valid_extends(&self, s1: StoreModel<C::Item>, s2: StoreModel<C::Item>)
        requires
            self.valid(s1),
            s2.extends(s1),
        ensures
            self.valid(s2),
    {
        self.computation().lemma_valid_extends(s1, s2);
        assert(s2.memos[self.index() as int].waker == s1.memos[self.index() as int].waker);
    }

    /// A memo of `compute`. Nothing is computed before the first read.
    pub fn new(store: &mut SignalStore<C::Item>, compute: C) -> (r: Self)
        requires
            old(store)@.wf(),
            compute.valid(old(store)@),
        ensures
            r.computation() == compute,
            r.index() == old(store)@.memos.len(),
            final(store)@.wf(),
            final(store)@.extends(old(store)@),
            final(store)@.values() == old(store)@.values(),
            r.valid(final(store)@),
            final(store)@.memos[r.index() as int].cache is None,
            final(store)@.wakers[r.waker(final(store)@) as int].changed,
            r.waker(final(store)@) == old(store)@.wakers.len(),
            final(store)@.wakers == old(store)@.wakers.push(fresh_waker()),
            final(store)@.memos.len() == old(store)@.memos.len() + 1,
            forall|j: int| 0 <= j < old(store)@.memos.len() ==> #[trigger] final(store)@.memos[j] == old(store)@.memos[j],
            final(store)@.cells_listen(old(store)@, r.waker(final(store)@)),
            final(store)@.unchanged_outside(old(store)@, compute.leaves()),
            forall|c: usize|
                #[trigger] compute.leaves().contains(c) && old(store)@.cells[c as int].senders > 0
                    ==> final(store)@.cells[c as int].signals.contains(r.waker(final(store)@)),
    {
        let ghost s0 = store@;
        let waker = store.new_waker();
        let ghost s1 = store@;
        proof {
            lemma_new_waker_wf(s0, waker);
            compute.lemma_valid_extends(s0, s1);
            compute.lemma_valid(s0);
        }
        compute.subscribe(store, &ChangedWakerWrapper(waker));
        let ghost s2 = store@;
        let ghost leaves = compute.leaves();
        let ghost rel = |v: Seq<C::Item>, x: C::Item| compute.produces(v, x);
        proof {
            lemma_listens_wf(s1, s2, waker);
            assert(s2.wakers[waker as int] == fresh_waker());
            assert(!s2.is_memo_waker(waker)) by {
                if s2.is_memo_waker(waker) {
                    let j = choose|j: int| 0 <= j < s2.memos.len() && #[trigger] s2.memos[j].waker == waker;
                    assert(s0.memos[j].waker == waker);
                }
            }
            assert forall|c: usize| #[trigger]
                leaves.contains(c) implies c < s2.cells.len() && (s2.cells[c as int].senders > 0
                    ==> s2.cells[c as int].signals.contains(waker)) by {
                assert(s2.cells[c as int].value == s1.cells[c as int].value);
            }
            assert forall|v1: Seq<C::Item>, v2: Seq<C::Item>, x: C::Item|
                #![trigger rel(v1, x), rel(v2, x)]
                agree_on(v1, v2, leaves) implies rel(v1, x) == rel(v2, x) by {
                compute.lemma_frame(v1, v2, x);
            }
            lemma_add_memo_wf(s2, waker, leaves, rel);
        }
        let id = store.add_memo(waker, Ghost(leaves), Ghost(rel));
        proof {
            assert forall|j: int| 0 <= j < s0.memos.len() implies {
                &&& #[trigger] store@.memos[j].waker == s0.memos[j].waker
                &&& store@.memos[j].leaves == s0.memos[j].leaves
                &&& store@.memos[j].rel == s0.memos[j].rel
            } by {
                assert(s2.memos[j] == s0.memos[j]);
            }
            assert(store@.extends(s0));
            compute.lemma_valid_extends(s0, store@);
            assert(store@.values() =~= s0.values());
            assert(store@.cells == s2.cells);
            assert(s1.cells == s0.cells);
            assert forall|c: usize|
                #[trigger] compute.leaves().contains(c) && s0.cells[c as int].senders > 0
                    implies store@.cells[c as int].signals.contains(waker) by {
                assert(s1.cells[c as int] == s0.cells[c as int]);
            }
        }
        Memo { id, compute: Arc::new(compute) }
    }

    /// Recomputes the cached value if a cell the memo depends on has
    /// changed since the last computation (or nothing was computed yet).
    fn check_update(&self, store: &mut SignalStore<C::Item>)
        requires
            old(store)@.wf(),
            self.valid(old(store)@),
            self.computation().accepts(old(store)@.values()),
        ensures
            final(store)@.wf(),
            final(store)@.refreshed_from(old(store)@),
            !final(store)@.wakers[self.waker(old(store)@) as int].changed,
            final(store)@.memos[self.index() as int].cache is Some,
            self.computation().produces(final(store)@.values(), final(store)@.memos[self.index() as int].cache->0),
            !old(store)@.wakers[self.waker(old(store)@) as int].changed ==> final(store)@ == old(store)@,
    {
        let ghost s0 = store@;
        proof {
            assert(s0.memo_wf(self.id as int));
            lemma_refreshed_refl(s0);
        }
        let w = store.memo_waker(self.id);
        if store.waker_has_change(w) {
            let v = self.compute.compute(store);
            let ghost s1 = store@;
            proof {
                lemma_refreshed_extends(s0, s1);
                self.lemma_valid_extends(s0, s1);
                lemma_refresh_wf(s1, self.id, v);
            }
            store.waker_is_changed(w);
            store.memo_set_cache(self.id, v);
            proof {
                lemma_refreshed_trans(s0, s1, store@);
                assert(store@.values() =~= s1.values());
            }
        }
    }

    fn signal_state(&self, store: &mut SignalStore<C::Item>) -> (r: MemoSignalState<C>)
        requires
            old(store)@.wf(),
            self.valid(old(store)@),
        ensures
            r.memo().index() == self.index(),
            r.memo().computation() == self.computation(),
            r.waker() == old(store)@.wakers.len(),
            final(store)@.wf(),
            final(store)@.extends(old(store)@),
            final(store)@.values() == old(store)@.values(),
            r.valid(final(store)@),
            final(store)@.wakers[r.waker() as int] == fresh_waker(),
            final(store)@.listens(
                StoreModel { wakers: old(store)@.wakers.push(fresh_waker()), ..old(store)@ },
                r.waker(),
            ),
            final(store)@.unchanged_outside(old(store)@, self.computation().leaves()),
            forall|c: usize|
                #[trigger] self.computation().leaves().contains(c) && old(store)@.cells[c as int].senders > 0
                    ==> final(store)@.cells[c as int].signals.contains(r.waker()),
    {
        let ghost s0 = store@;
        let signal = MemoSignalState::new(store, self.clone());
        let waker = signal.waker;
        let ghost s1 = store@;
        proof {
            self.lemma_valid_extends(s0, s1);
        }
        self.compute.subscribe(store, &ChangedWakerWrapper(waker));
        proof {
            assert forall|c: usize|
                #[trigger] self.computation().leaves().contains(c) && s0.cells[c as int].senders > 0
                    implies store@.cells[c as int].signals.contains(waker) by {
                assert(s1.cells[c as int] == s0.cells[c as int]);
            }
            lemma_listens_wf(s1, store@, waker);
            lemma_extends_trans(s0, s1, store@);
            self.lemma_valid_extends(s0, store@);
            assert(store@.values() =~= s0.values());
            lemma_not_memo_waker_extends(s1, store@, waker);
        }
        signal
    }

    /// The memo's value, recomputed first if needed.
    pub fn get(&self, store: &mut SignalStore<C::Item>) -> (r: C::Item)
        where
            C::Item: Copy,
        requires
            old(store)@.wf(),
            self.valid(old(store)@),
            self.computation().accepts(old(store)@.values()),
        ensures
            final(store)@.wf(),
            final(store)@.refreshed_from(old(store)@),
            final(store)@.extends(old(store)@),
            self.valid(final(store)@),
            self.computation().produces(final(store)@.values(), r),
            final(store)@.memos[self.index() as int].cache == Some(r),
            !final(store)@.wakers[self.waker(old(store)@) as int].changed,
            !old(store)@.wakers[self.waker(old(store)@) as int].changed ==> final(store)@ == old(store)@
                && Some(r) == old(store)@.memos[self.index() as int].cache,
    {
        self.check_update(store);
        proof {
            lemma_refreshed_extends(old(store)@, store@);
            self.lemma_valid_extends(old(store)@, store@);
        }
        *store.memo_value(self.id)
    }

    pub fn signal(&self, store: &mut SignalStore<C::Item>) -> (r: MemoSignal<C>)
        where
            C::Item: Copy,
        requires
            old(store)@.wf(),
            self.valid(old(store)@),
        ensures
            r.state().memo().index() == self.index(),
            r.state().memo().computation() == self.computation(),
            r.state().waker() == old(store)@.wakers.len(),
            final(store)@.wf(),
            final(store)@.extends(old(store)@),
            final(store)@.values() == old(store)@.values(),
            r.state().valid(final(store)@),
            final(store)@.wakers[r.state().waker() as int] == fresh_waker(),
            final(store)@.listens(
                StoreModel { wakers: old(store)@.wakers.push(fresh_waker()), ..old(store)@ },
                r.state().waker(),
            ),
            final(store)@.unchanged_outside(old(store)@, self.computation().leaves()),
            forall|c: usize|
                #[trigger] self.computation().leaves().contains(c) && old(store)@.cells[c as int].senders > 0
                    ==> final(store)@.cells[c as int].signals.contains(r.state().waker()),
    {
        MemoSignal(self.signal_state(store))
    }

    /// A clone of the memo's value, recomputed first if needed.
    pub fn get_cloned(&self, store: &mut SignalStore<C::Item>) -> (r: C::Item)
        requires
            old(store)@.wf(),
            self.valid(old(store)@),
            self.computation().accepts(old(store)@.values()),
        ensures
            final(store)@.wf(),
            final(store)@.refreshed_from(old(store)@),
            final(store)@.extends(old(store)@),
            self.valid(final(store)@),
            exists|x: C::Item| #[trigger]
                self.computation().produces(final(store)@.values(), x) && cloned(x, r)
                    && final(store)@.memos[self.index() as int].cache == Some(x),
            !final(store)@.wakers[self.waker(old(store)@) as int].changed,
            !old(store)@.wakers[self.waker(old(store)@) as int].changed ==> final(store)@ == old(store)@
                && cloned(old(store)@.memos[self.index() as int].cache->0, r),
    {
        self.check_update(store);
        proof {
            lemma_refreshed_extends(old(store)@, store@);
            self.lemma_valid_extends(old(store)@, store@);
        }
        store.memo_value(self.id).clone()
    }

    pub fn signal_cloned(&self, store: &mut SignalStore<C::Item>) -> (r: MemoSignalCloned<C>)
        requires
            old(store)@.wf(),
            self.valid(old(store)@),
        ensures
            r.state().memo().index() == self.index(),
            r.state().memo().computation() == self.computation(),
            r.state().waker() == old(store)@.wakers.len(),
            final(store)@.wf(),
            final(store)@.extends(old(store)@),
            final(store)@.values() == old(store)@.values(),
            r.state().valid(final(store)@),
            final(store)@.wakers[r.state().waker() as int] == fresh_waker(),
            final(store)@.listens(
                StoreModel { wakers: old(store)@.wakers.push(fresh_waker()), ..old(store)@ },
                r.state().waker(),
            ),
            final(store)@.unchanged_outside(old(store)@, self.computation().leaves()),
            forall|c: usize|
                #[trigger] self.computation().leaves().contains(c) && old(store)@.cells[c as int].senders > 0
                    ==> final(store)@.cells[c as int].signals.contains(r.state().waker()),
    {
        MemoSignalCloned(self.signal_state(store))
    }
}

impl<C: Compute> Reader for Memo<C> {
    type Item = C::Item;

    type ItemSignal = MemoSignalCloned<C>;

    open spec fn leaves(&self) -> Set<usize> {
        self.computation().leaves()
    }

    open spec fn produces(&self, values: Seq<C::Item>, v: C::Item) -> bool {
        exists|x: C::Item| #[trigger] self.computation().produces(values, x) && cloned(x, v)
    }

    open spec fn valid(&self, s: StoreModel<C::Item>) -> bool {
        Memo::valid(self, s)
    }

    open spec fn accepts(&self, values: Seq<C::Item>) -> bool {
        self.computation().accepts(values)
    }

    proof fn lemma_valid(&self, s: StoreModel<C::Item>) {
        self.computation().lemma_valid(s);
    }

    proof fn lemma_valid_extends(&self, s1: StoreModel<C::Item>, s2: StoreModel<C::Item>) {
        Memo::lemma_valid_extends(self, s1, s2);
    }

    proof fn lemma_frame(&self, v1: Seq<C::Item>, v2: Seq<C::Item>, x: C::Item) {
        if self.produces(v1, x) {
            let y = choose|y: C::Item| #[trigger] self.computation().produces(v1, y) && cloned(y, x);
            self.computation().lemma_frame(v1, v2, y);
        }
        if self.produces(v2, x) {
            let y = choose|y: C::Item| #[trigger] self.computation().produces(v2, y) && cloned(y, x);
            self.computation().lemma_frame(v1, v2, y);
        }
    }

    fn subscribe(&self, store: &mut SignalStore<C::Item>, waker: &ChangedWakerWrapper) {
        self.compute.subscribe(store, waker);
    }

    fn get(&self, store: &mut SignalStore<C::Item>) -> (r: C::Item) {
        self.get_cloned(store)
    }

    fn signal(&self, store: &mut SignalStore<C::Item>) -> (r: MemoSignalCloned<C>) {
        self.signal_cloned(store)
    }
}

/// The notifier of a signal made from a memo, and the memo.
pub struct MemoSignalState<C: Compute> {
    waker: usize,
    state: Memo<C>,
}

impl<C: Compute> MemoSignalState<C> {
    pub closed spec fn waker(&self) -> usize {
        self.waker
    }

    pub closed spec fn memo(&self) -> Memo<C> {
        self.state
    }

    pub open spec fn valid(&self, s: StoreModel<C::Item>) -> bool {
        &&& self.waker() < s.wakers.len()
        &&& !s.is_memo_waker(self.waker())
        &&& self.memo().valid(s)
    }

    /// A signal of a memo stays valid in every later state of the store.
    pub proof fn lemma_valid_extends(&self, s1: StoreModel<C::Item>, s2: StoreModel<C::Item>)
        requires
            self.valid(s1),
            s2.extends(s1),
        ensures
            self.valid(s2),
    {
        lemma_not_memo_waker_extends(s1, s2, self.waker());
        self.memo().lemma_valid_extends(s1, s2);
    }

    fn new(store: &mut SignalStore<C::Item>, state: Memo<C>) -> (r: Self)
        requires
            old(store)@.wf(),
        ensures
            r.waker() == old(store)@.wakers.len(),
            r.memo() == state,
            final(store)@ == (StoreModel { wakers: old(store)@.wakers.push(fresh_waker()), ..old(store)@ }),
            final(store)@.wf(),
            final(store)@.extends(old(store)@),
            !final(store)@.is_memo_waker(r.waker()),
    {
        let ghost s0 = store@;
        let waker = store.new_waker();
        proof {
            lemma_new_waker_wf(s0, waker);
            assert(store@.memos == s0.memos);
        }
        MemoSignalState { waker, state }
    }

    /// Reports the memo's value (recomputed if needed, and mapped by `f`) if
    /// a change is pending, the end of the signal if a cell it depends on
    /// lost its last sender, and otherwise registers the task of `cx`.
    fn poll_change<B, F: FnOnce(&C::Item) -> B>(&self, store: &mut SignalStore<C::Item>, waker: &std::task::Waker, f: F) -> (r: Poll<Option<B>>)
        requires
            old(store)@.wf(),
            self.valid(old(store)@),
            self.memo().computation().accepts(old(store)@.values()),
            forall|x: C::Item| #[trigger]
                self.memo().computation().produces(old(store)@.values(), x) ==> call_requires(f, (&x,)),
        ensures
            final(store)@.wf(),
            final(store)@.extends(old(store)@),
            final(store)@.values() == old(store)@.values(),
            old(store)@.wakers[self.waker() as int].changed ==> {
                &&& final(store)@.refreshed_from(old(store)@.after_poll(self.waker() as int, final(store)@.wakers[self.waker() as int].task->0))
                &&& r matches Poll::Ready(Some(b)) && exists|x: C::Item| #[trigger]
                    self.memo().computation().produces(old(store)@.values(), x) && call_ensures(f, (&x,), b)
                        && final(store)@.memos[self.memo().index() as int].cache == Some(x)
                &&& !final(store)@.wakers[self.memo().waker(old(store)@) as int].changed
            },
            !old(store)@.wakers[self.waker() as int].changed ==> final(store)@ == old(store)@.after_poll(self.waker() as int, final(store)@.wakers[self.waker() as int].task->0),
            !old(store)@.wakers[self.waker() as int].changed && old(store)@.wakers[self.waker() as int].closed
                ==> r matches Poll::Ready(None),
            !old(store)@.wakers[self.waker() as int].changed && !old(store)@.wakers[self.waker() as int].closed
                ==> (r matches Poll::Pending) && (final(store)@.wakers[self.waker() as int].task matches Some(t)
                    && cloned(*waker, t)),
    {
        let ghost s0 = store@;
        let w = self.waker;
        proof {
            lemma_with_waker_wf(s0, w, WakerModel { changed: false, ..s0.wakers[w as int] });
        }
        if store.waker_is_changed(w) {
            let ghost s1 = store@;
            proof {
                self.state.lemma_valid_extends(s0, s1);
            }
            self.state.check_update(store);
            let value = store.memo_value(self.state.id);
            let ghost x = *value;
            proof {
                assert(store@.values() =~= s0.values());
                assert(self.memo().computation().produces(s0.values(), x));
            }
            let b = f(value);
            proof {
                lemma_refreshed_extends(s1, store@);
                lemma_extends_trans(s0, s1, store@);
                assert(s1.values() =~= s0.values());
                assert(self.memo().computation().produces(s0.values(), x));
            }
            Poll::Ready(Some(b))
        } else {
            proof {
                assert(store@.wakers =~= s0.wakers);
                assert(store@ == s0);
            }
            if store.waker_is_closed(w) {
                Poll::Ready(None)
            } else {
                store.waker_set(w, waker);
                proof {
                    let t = store@.wakers[w as int].task->0;
                    lemma_with_waker_wf(s0, w, WakerModel { task: Some(t), ..s0.wakers[w as int] });
                }
                Poll::Pending
            }
        }
    }
}

/// A signal of the value of a memo.
pub struct MemoSignal<C: Compute>(MemoSignalState<C>);

impl<C: Compute> MemoSignal<C> {
    pub closed spec fn state(&self) -> MemoSignalState<C> {
        self.0
    }

    pub fn poll_change(&self, store: &mut SignalStore<C::Item>, cx: &std::task::Context) -> (r: Poll<Option<C::Item>>)
        where
            C::Item: Copy,
        requires
            old(store)@.wf(),
            self.state().valid(old(store)@),
            self.state().memo().computation().accepts(old(store)@.values()),
        ensures
            final(store)@.wf(),
            final(store)@.extends(old(store)@),
            final(store)@.values() == old(store)@.values(),
            self.state().valid(final(store)@),
            old(store)@.wakers[self.state().waker() as int].changed ==> {
                &&& final(store)@.refreshed_from(old(store)@.after_poll(self.state().waker() as int, final(store)@.wakers[self.state().waker() as int].task->0))
                &&& r matches Poll::Ready(Some(x)) && self.state().memo().computation().produces(old(store)@.values(), x)
                    && final(store)@.memos[self.state().memo().index() as int].cache == Some(x)
                &&& !final(store)@.wakers[self.state().memo().waker(old(store)@) as int].changed
            },
            !old(store)@.wakers[self.state().waker() as int].changed ==> final(store)@ == old(store)@.after_poll(self.state().waker() as int, final(store)@.wakers[self.state().waker() as int].task->0),
            !old(store)@.wakers[self.state().waker() as int].changed && old(store)@.wakers[self.state().waker() as int].closed
                ==> r matches Poll::Ready(None),
            !old(store)@.wakers[self.state().waker() as int].changed && !old(store)@.wakers[self.state().waker() as int].closed
                ==> (r matches Poll::Pending) && final(store)@.wakers[self.state().waker() as int].task is Some,
    {
        let copy = |v: &C::Item| -> (r: C::Item)
            ensures
                r == *v,
            { *v };
        let r = self.0.poll_change(store, context_waker(cx), copy);
        proof {
            self.0.lemma_valid_extends(old(store)@, store@);
        }
        r
    }

    pub fn drop(self, store: &mut SignalStore<C::Item>)
        requires
            old(store)@.wf(),
            self.state().valid(old(store)@),
        ensures
            final(store)@ == old(store)@.with_waker(
                self.state().waker() as int,
                WakerModel { alive: false, ..old(store)@.wakers[self.state().waker() as int] },
            ),
            final(store)@.wf(),
            final(store)@.extends(old(store)@),
    {
        let w = self.0.waker;
        proof {
            lemma_with_waker_wf(store@, w, WakerModel { alive: false, ..store@.wakers[w as int] });
        }
        store.waker_release(w);
    }
}

/// A signal of the value of a memo, mapped by a function.
pub struct MemoSignalRef<C: Compute, F>(MemoSignalState<C>, F);

impl<C: Compute, F> MemoSignalRef<C, F> {
    pub closed spec fn state(&self) -> MemoSignalState<C> {
        self.0
    }

    pub closed spec fn func(&self) -> F {
        self.1
    }

    pub fn poll_change<B>(&self, store: &mut SignalStore<C::Item>, cx: &std::task::Context) -> (r: Poll<Option<B>>)
        where
            F: Fn(&C::Item) -> B,
        requires
            old(store)@.wf(),
            self.state().valid(old(store)@),
            self.state().memo().computation().accepts(old(store)@.values()),
            forall|x: C::Item| #[trigger]
                self.state().memo().computation().produces(old(store)@.values(), x) ==> call_requires(
                    self.func(),
                    (&x,),
                ),
        ensures
            final(store)@.wf(),
            final(store)@.extends(old(store)@),
            final(store)@.values() == old(store)@.values(),
            self.state().valid(final(store)@),
            old(store)@.wakers[self.state().waker() as int].changed ==> {
                &&& final(store)@.refreshed_from(old(store)@.after_poll(self.state().waker() as int, final(store)@.wakers[self.state().waker() as int].task->0))
                &&& r matches Poll::Ready(Some(b)) && exists|x: C::Item| #[trigger]
                    self.state().memo().computation().produces(old(store)@.values(), x) && call_ensures(
                        self.func(),
                        (&x,),
                        b,
                    ) && final(store)@.memos[self.state().memo().index() as int].cache == Some(x)
                &&& !final(store)@.wakers[self.state().memo().waker(old(store)@) as int].changed
            },
            !old(store)@.wakers[self.state().waker() as int].changed ==> final(store)@ == old(store)@.after_poll(self.state().waker() as int, final(store)@.wakers[self.state().waker() as int].task->0),
            !old(store)@.wakers[self.state().waker() as int].changed && old(store)@.wakers[self.state().waker() as int].closed
                ==> r matches Poll::Ready(None),
            !old(store)@.wakers[self.state().waker() as int].changed && !old(store)@.wakers[self.state().waker() as int].closed
                ==> (r matches Poll::Pending) && final(store)@.wakers[self.state().waker() as int].task is Some,
    {
        let f = &self.1;
        proof {
            assert(*f == self.func());
        }
        let r = self.0.poll_change(store, context_waker(cx), |v: &C::Item| -> (r: B)
            requires
                call_requires(*f, (v,)),
            ensures
                call_ensures(*f, (v,), r),
            { f(v) });
        proof {
            self.0.lemma_valid_extends(old(store)@, store@);
        }
        r
    }

    pub fn drop(self, store: &mut SignalStore<C::Item>)
        requires
            old(store)@.wf(),
            self.state().valid(old(store)@),
        ensures
            final(store)@ == old(store)@.with_waker(
                self.state().waker() as int,
                WakerModel { alive: false, ..old(store)@.wakers[self.state().waker() as int] },
            ),
            final(store)@.wf(),
            final(store)@.extends(old(store)@),
    {
        let w = self.0.waker;
        proof {
            lemma_with_waker_wf(store@, w, WakerModel { alive: false, ..store@.wakers[w as int] });
        }
        store.waker_release(w);
    }
}

/// A signal of clones of the value of a memo.
pub struct MemoSignalCloned<C: Compute>(MemoSignalState<C>);

impl<C: Compute> MemoSignalCloned<C> {
    pub closed spec fn state(&self) -> MemoSignalState<C> {
        self.0
    }

    pub fn poll_change(&self, store: &mut SignalStore<C::Item>, cx: &std::task::Context) -> (r: Poll<Option<C::Item>>)
        requires
            old(store)@.wf(),
            self.state().valid(old(store)@),
            self.state().memo().computation().accepts(old(store)@.values()),
        ensures
            final(store)@.wf(),
            final(store)@.extends(old(store)@),
            final(store)@.values() == old(store)@.values(),
            self.state().valid(final(store)@),
            old(store)@.wakers[self.state().waker() as int].changed ==> {
                &&& final(store)@.refreshed_from(old(store)@.after_poll(self.state().waker() as int, final(store)@.wakers[self.state().waker() as int].task->0))
                &&& r matches Poll::Ready(Some(b)) && exists|x: C::Item| #[trigger]
                    self.state().memo().computation().produces(old(store)@.values(), x) && cloned(x, b)
                        && final(store)@.memos[self.state().memo().index() as int].cache == Some(x)
                &&& !final(store)@.wakers[self.state().memo().waker(old(store)@) as int].changed
            },
            !old(store)@.wakers[self.state().waker() as int].changed ==> final(store)@ == old(store)@.after_poll(self.state().waker() as int, final(store)@.wakers[self.state().waker() as int].task->0),
            !old(store)@.wakers[self.state().waker() as int].changed && old(store)@.wakers[self.state().waker() as int].closed
                ==> r matches Poll::Ready(None),
            !old(store)@.wakers[self.state().waker() as int].changed && !old(store)@.wakers[self.state().waker() as int].closed
                ==> (r matches Poll::Pending) && final(store)@.wakers[self.state().waker() as int].task is Some,
    {
        let clone = |v: &C::Item| -> (r: C::Item)
            ensures
                cloned(*v, r),
            { v.clone() };
        let r = self.0.poll_change(store, context_waker(cx), clone);
        proof {
            self.0.lemma_valid_extends(old(store)@, store@);
        }
        r
    }

    pub fn drop(self, store: &mut SignalStore<C::Item>)
        requires
            old(store)@.wf(),
            self.state().valid(old(store)@),
        ensures
            final(store)@ == old(store)@.with_waker(
                self.state().waker() as int,
                WakerModel { alive: false, ..old(store)@.wakers[self.state().waker() as int] },
            ),
            final(store)@.wf(),
            final(store)@.extends(old(store)@),
    {
        let w = self.0.waker;
        proof {
            lemma_with_waker_wf(store@, w, WakerModel { alive: false, ..store@.wakers[w as int] });
        }
        store.waker_release(w);
    }
}

impl<C: Compute> Signal for MemoSignal<C> where C::Item: Copy {
    type Item = C::Item;

    type Value = C::Item;

    open spec fn valid(&self, s: StoreModel<C::Item>) -> bool {
        self.state().valid(s)
    }

    open spec fn notifier(&self) -> usize {
        self.state().waker()
    }

    open spec fn reports(&self, s: StoreModel<C::Item>, v: C::Item) -> bool {
        self.state().memo().computation().produces(s.values(), v)
    }

    open spec fn accepts(&self, s: StoreModel<C::Item>) -> bool {
        self.state().memo().computation().accepts(s.values())
    }

    proof fn lemma_valid_extends(&self, s1: StoreModel<C::Item>, s2: StoreModel<C::Item>) {
        lemma_not_memo_waker_extends(s1, s2, self.state().waker());
        self.state().memo().lemma_valid_extends(s1, s2);
    }

    fn poll_change(&self, store: &mut SignalStore<C::Item>, cx: &std::task::Context) -> (r: Poll<Option<C::Item>>) {
        MemoSignal::poll_change(self, store, cx)
    }
}

impl<C: Compute, B, F: Fn(&C::Item) -> B> Signal for MemoSignalRef<C, F> {
    type Item = B;

    type Value = C::Item;

    open spec fn valid(&self, s: StoreModel<C::Item>) -> bool {
        self.state().valid(s)
    }

    open spec fn notifier(&self) -> usize {
        self.state().waker()
    }

    open spec fn reports(&self, s: StoreModel<C::Item>, v: B) -> bool {
        exists|x: C::Item| #[trigger]
            self.state().memo().computation().produces(s.values(), x) && call_ensures(self.func(), (&x,), v)
    }

    open spec fn accepts(&self, s: StoreModel<C::Item>) -> bool {
        &&& self.state().memo().computation().accepts(s.values())
        &&& forall|x: C::Item| #[trigger]
            self.state().memo().computation().produces(s.values(), x) ==> call_requires(self.func(), (&x,))
    }

    proof fn lemma_valid_extends(&self, s1: StoreModel<C::Item>, s2: StoreModel<C::Item>) {
        lemma_not_memo_waker_extends(s1, s2, self.state().waker());
        self.state().memo().lemma_valid_extends(s1, s2);
    }

    fn poll_change(&self, store: &mut SignalStore<C::Item>, cx: &std::task::Context) -> (r: Poll<Option<B>>) {
        MemoSignalRef::poll_change(self, store, cx)
    }
}

impl<C: Compute> Signal for MemoSignalCloned<C> {
    type Item = C::Item;

    type Value = C::Item;

    open spec fn valid(&self, s: StoreModel<C::Item>) -> bool {
        self.state().valid(s)
    }

    open spec fn notifier(&self) -> usize {
        self.state().waker()
    }

    open spec fn reports(&self, s: StoreModel<C::Item>, v: C::Item) -> bool {
        exists|x: C::Item| #[trigger] self.state().memo().computation().produces(s.values(), x) && cloned(x, v)
    }

    open spec fn accepts(&self, s: StoreModel<C::Item>) -> bool {
        self.state().memo().computation().accepts(s.values())
    }

    proof fn lemma_valid_extends(&self, s1: StoreModel<C::Item>, s2: StoreModel<C::Item>) {
        lemma_not_memo_waker_extends(s1, s2, self.state().waker());
        self.state().memo().lemma_valid_extends(s1, s2);
    }

    fn poll_change(&self, store: &mut SignalStore<C::Item>, cx: &std::task::Context) -> (r: Poll<Option<C::Item>>) {
        MemoSignalCloned::poll_change(self, store, cx)
    }
}

/// The computation of `f` over the values of one reader.
pub struct Compute1<R1: Reader, F> {
    p1: R1,
    f: F,
}

impl<R1: Reader, F: Fn(R1::Item) -> R1::Item> Compute1<R1, F> {
    pub closed spec fn reader1(&self) -> R1 {
        self.p1
    }

    pub closed spec fn func(&self) -> F {
        self.f
    }

    pub fn new(p1: R1, f: F) -> (r: Self)
        ensures
            r.reader1() == p1,
            r.func() == f,
    {
        Compute1 { p1, f }
    }
}

impl<R1: Reader, F: Fn(R1::Item) -> R1::Item> Compute for Compute1<R1, F> {
    type Item = R1::Item;

    open spec fn leaves(&self) -> Set<usize> {
        self.reader1().leaves()
    }

    open spec fn produces(&self, values: Seq<R1::Item>, v: R1::Item) -> bool {
        exists|x1: R1::Item|
            #![trigger call_ensures(self.func(), (x1,), v)]
            self.reader1().produces(values, x1) && call_ensures(self.func(), (x1,), v)
    }

    open spec fn valid(&self, s: StoreModel<R1::Item>) -> bool {
        &&& self.reader1().valid(s)
    }

    open spec fn accepts(&self, values: Seq<R1::Item>) -> bool {
        &&& self.reader1().accepts(values)
        &&& forall|x1: R1::Item|
            self.reader1().produces(values, x1) ==> #[trigger] call_requires(self.func(), (x1,))
    }

    proof fn lemma_valid(&self, s: StoreModel<R1::Item>) {
        self.reader1().lemma_valid(s);
    }

    proof fn lemma_valid_extends(&self, s1: StoreModel<R1::Item>, s2: StoreModel<R1::Item>) {
        self.reader1().lemma_valid_extends(s1, s2);
    }

    proof fn lemma_frame(&self, v1: Seq<R1::Item>, v2: Seq<R1::Item>, x: R1::Item) {
        assert(agree_on(v1, v2, self.reader1().leaves())) by {
            assert forall|c: usize| #[trigger] self.reader1().leaves().contains(c) implies self.leaves().contains(c) by {}
        }
        if self.produces(v1, x) {
            let (y1) = choose|x1: R1::Item|
                #![trigger call_ensures(self.func(), (x1,), x)]
                self.reader1().produces(v1, x1) && call_ensures(self.func(), (x1,), x);
            self.reader1().lemma_frame(v1, v2, y1);
            assert(call_ensures(self.func(), (y1,), x));
        }
        if self.produces(v2, x) {
            let (y1) = choose|x1: R1::Item|
                #![trigger call_ensures(self.func(), (x1,), x)]
                self.reader1().produces(v2, x1) && call_ensures(self.func(), (x1,), x);
            self.reader1().lemma_frame(v1, v2, y1);
            assert(call_ensures(self.func(), (y1,), x));
        }
    }

    fn subscribe(&self, store: &mut SignalStore<R1::Item>, waker: &ChangedWakerWrapper) {
        let ghost s0 = store@;
        proof {
            self.reader1().lemma_valid(s0);
            crate::model::lemma_listens_refl(s0, waker.id());
        }
        self.p1.subscribe(store, waker);
        let ghost a1 = store@;
        proof {
            lemma_listens_trans(s0, s0, a1, waker.id());
            assert forall|c: usize|
                (self.reader1().leaves().contains(c)) && s0.cells[c as int].senders > 0 implies #[trigger] a1.cells[c as int].signals.contains(waker.id()) by {
                assert(a1.cells[c as int].value == s0.cells[c as int].value);
            }
        }
        proof {
            assert forall|c: usize|
                #[trigger] self.leaves().contains(c) && s0.cells[c as int].senders > 0 implies store@.cells[c as int].signals.contains(waker.id()) by {
                assert(a1.cells[c as int].signals.contains(waker.id()));
            }
        }
    }

    fn compute(&self, store: &mut SignalStore<R1::Item>) -> (r: R1::Item) {
        let ghost s0 = store@;
        let x1 = self.p1.get(store);
        proof {
            lemma_refreshed_extends(s0, store@);
            assert(self.reader1().produces(store@.values(), x1));
            assert(call_requires(self.func(), (x1,)));
        }
        let r = (self.f)(x1);
        proof {
            assert(call_ensures(self.func(), (x1,), r));
        }
        r
    }
}

/// The computation of `f` over the values of 2 readers.
pub struct Compute2<R1: Reader, R2: Reader<Item = R1::Item>, F> {
    p1: R1,
    p2: R2,
    f: F,
}

impl<R1: Reader, R2: Reader<Item = R1::Item>, F: Fn(R1::Item, R1::Item) -> R1::Item> Compute2<R1, R2, F> {
    pub closed spec fn reader1(&self) -> R1 {
        self.p1
    }

    pub closed spec fn reader2(&self) -> R2 {
        self.p2
    }

    pub closed spec fn func(&self) -> F {
        self.f
    }

    pub fn new(p1: R1, p2: R2, f: F) -> (r: Self)
        ensures
            r.reader1() == p1,
            r.reader2() == p2,
            r.func() == f,
    {
        Compute2 { p1, p2, f }
    }
}

impl<R1: Reader, R2: Reader<Item = R1::Item>, F: Fn(R1::Item, R1::Item) -> R1::Item> Compute for Compute2<R1, R2, F> {
    type Item = R1::Item;

    open spec fn leaves(&self) -> Set<usize> {
        self.reader1().leaves().union(self.reader2().leaves())
    }

    open spec fn produces(&self, values: Seq<R1::Item>, v: R1::Item) -> bool {
        exists|x1: R1::Item, x2: R1::Item|
            #![trigger call_ensures(self.func(), (x1, x2,), v)]
            self.reader1().produces(values, x1) && self.reader2().produces(values, x2) && call_ensures(self.func(), (x1, x2,), v)
    }

    open spec fn valid(&self, s: StoreModel<R1::Item>) -> bool {
        &&& self.reader1().valid(s)
        &&& self.reader2().valid(s)
    }

    open spec fn accepts(&self, values: Seq<R1::Item>) -> bool {
        &&& self.reader1().accepts(values)
        &&& self.reader2().accepts(values)
        &&& forall|x1: R1::Item, x2: R1::Item|
            self.reader1().produces(values, x1) && self.reader2().produces(values, x2) ==> #[trigger] call_requires(self.func(), (x1, x2,))
    }

    proof fn lemma_valid(&self, s: StoreModel<R1::Item>) {
        self.reader1().lemma_valid(s);
        self.reader2().lemma_valid(s);
    }

    proof fn lemma_valid_extends(&self, s1: StoreModel<R1::Item>, s2: StoreModel<R1::Item>) {
        self.reader1().lemma_valid_extends(s1, s2);
        self.reader2().lemma_valid_extends(s1, s2);
    }

    proof fn lemma_frame(&self, v1: Seq<R1::Item>, v2: Seq<R1::Item>, x: R1::Item) {
        assert(agree_on(v1, v2, self.reader1().leaves())) by {
            assert forall|c: usize| #[trigger] self.reader1().leaves().contains(c) implies self.leaves().contains(c) by {}
        }
        assert(agree_on(v1, v2, self.reader2().leaves())) by {
            assert forall|c: usize| #[trigger] self.reader2().leaves().contains(c) implies self.leaves().contains(c) by {}
        }
        if self.produces(v1, x) {
            let (y1, y2) = choose|x1: R1::Item, x2: R1::Item|
                #![trigger call_ensures(self.func(), (x1, x2,), x)]
                self.reader1().produces(v1, x1) && self.reader2().produces(v1, x2) && call_ensures(self.func(), (x1, x2,), x);
            self.reader1().lemma_frame(v1, v2, y1);
            self.reader2().lemma_frame(v1, v2, y2);
            assert(call_ensures(self.func(), (y1, y2,), x));
        }
        if self.produces(v2, x) {
            let (y1, y2) = choose|x1: R1::Item, x2: R1::Item|
                #![trigger call_ensures(self.func(), (x1, x2,), x)]
                self.reader1().produces(v2, x1) && self.reader2().produces(v2, x2) && call_ensures(self.func(), (x1, x2,), x);
            self.reader1().lemma_frame(v1, v2, y1);
            self.reader2().lemma_frame(v1, v2, y2);
            assert(call_ensures(self.func(), (y1, y2,), x));
        }
    }

    fn subscribe(&self, store: &mut SignalStore<R1::Item>, waker: &ChangedWakerWrapper) {
        let ghost s0 = store@;
        proof {
            self.reader1().lemma_valid(s0);
            self.reader2().lemma_valid(s0);
            crate::model::lemma_listens_refl(s0, waker.id());
        }
        self.p1.subscribe(store, waker);
        let ghost a1 = store@;
        proof {
            lemma_listens_trans(s0, s0, a1, waker.id());
            assert forall|c: usize|
                (self.reader1().leaves().contains(c)) && s0.cells[c as int].senders > 0 implies #[trigger] a1.cells[c as int].signals.contains(waker.id()) by {
                assert(a1.cells[c as int].value == s0.cells[c as int].value);
            }
        }
        proof {
            lemma_listens_wf(s0, a1, waker.id());
            self.reader2().lemma_valid_extends(s0, a1);
            lemma_not_memo_waker_extends(s0, a1, waker.id());
        }
        self.p2.subscribe(store, waker);
        let ghost a2 = store@;
        proof {
            lemma_listens_trans(s0, a1, a2, waker.id());
            assert forall|c: usize|
                (self.reader1().leaves().contains(c) || self.reader2().leaves().contains(c)) && s0.cells[c as int].senders > 0 implies #[trigger] a2.cells[c as int].signals.contains(waker.id()) by {
                assert(a2.cells[c as int].value == a1.cells[c as int].value);
                assert(a1.cells[c as int].value == s0.cells[c as int].value);
            }
        }
        proof {
            assert forall|c: usize|
                #[trigger] self.leaves().contains(c) && s0.cells[c as int].senders > 0 implies store@.cells[c as int].signals.contains(waker.id()) by {
                assert(a2.cells[c as int].signals.contains(waker.id()));
            }
        }
    }

    fn compute(&self, store: &mut SignalStore<R1::Item>) -> (r: R1::Item) {
        let ghost s0 = store@;
        let x1 = self.p1.get(store);
        proof {
            lemma_refreshed_extends(s0, store@);
            self.reader2().lemma_valid_extends(s0, store@);
        }
        let ghost before2 = store@;
        let x2 = self.p2.get(store);
        proof {
            lemma_refreshed_trans(s0, before2, store@);
            lemma_refreshed_extends(before2, store@);
        }
        proof {
            lemma_refreshed_extends(s0, store@);
            assert(self.reader1().produces(store@.values(), x1));
            assert(self.reader2().produces(store@.values(), x2));
            assert(call_requires(self.func(), (x1, x2,)));
        }
        let r = (self.f)(x1, x2);
        proof {
            assert(call_ensures(self.func(), (x1, x2,), r));
        }
        r
    }
}

/// The computation of `f` over the values of 3 readers.
pub struct Compute3<R1: Reader, R2: Reader<Item = R1::Item>, R3: Reader<Item = R1::Item>, F> {
    p1: R1,
    p2: R2,
    p3: R3,
    f: F,
}

impl<R1: Reader, R2: Reader<Item = R1::Item>, R3: Reader<Item = R1::Item>, F: Fn(R1::Item, R1::Item, R1::Item) -> R1::Item> Compute3<R1, R2, R3, F> {
    pub closed spec fn reader1(&self) -> R1 {
        self.p1
    }

    pub closed spec fn reader2(&self) -> R2 {
        self.p2
    }

    pub closed spec fn reader3(&self) -> R3 {
        self.p3
    }

    pub closed spec fn func(&self) -> F {
        self.f
    }

    pub fn new(p1: R1, p2: R2, p3: R3, f: F) -> (r: Self)
        ensures
            r.reader1() == p1,
            r.reader2() == p2,
            r.reader3() == p3,
            r.func() == f,
    {
        Compute3 { p1, p2, p3, f }
    }
}

impl<R1: Reader, R2: Reader<Item = R1::Item>, R3: Reader<Item = R1::Item>, F: Fn(R1::Item, R1::Item, R1::Item) -> R1::Item> Compute for Compute3<R1, R2, R3, F> {
    type Item = R1::Item;

    open spec fn leaves(&self) -> Set<usize> {
        self.reader1().leaves().union(self.reader2().leaves()).union(self.reader3().leaves())
    }

    open spec fn produces(&self, values: Seq<R1::Item>, v: R1::Item) -> bool {
        exists|x1: R1::Item, x2: R1::Item, x3: R1::Item|
            #![trigger call_ensures(self.func(), (x1, x2, x3,), v)]
            self.reader1().produces(values, x1) && self.reader2().produces(values, x2) && self.reader3().produces(values, x3) && call_ensures(self.func(), (x1, x2, x3,), v)
    }

    open spec fn valid(&self, s: StoreModel<R1::Item>) -> bool {
        &&& self.reader1().valid(s)
        &&& self.reader2().valid(s)
        &&& self.reader3().valid(s)
    }

    open spec fn accepts(&self, values: Seq<R1::Item>) -> bool {
        &&& self.reader1().accepts(values)
        &&& self.reader2().accepts(values)
        &&& self.reader3().accepts(values)
        &&& forall|x1: R1::Item, x2: R1::Item, x3: R1::Item|
            self.reader1().produces(values, x1) && self.reader2().produces(values, x2) && self.reader3().produces(values, x3) ==> #[trigger] call_requires(self.func(), (x1, x2, x3,))
    }

    proof fn lemma_valid(&self, s: StoreModel<R1::Item>) {
        self.reader1().lemma_valid(s);
        self.reader2().lemma_valid(s);
        self.reader3().lemma_valid(s);
    }

    proof fn lemma_valid_extends(&self, s1: StoreModel<R1::Item>, s2: StoreModel<R1::Item>) {
        self.reader1().lemma_valid_extends(s1, s2);
        self.reader2().lemma_valid_extends(s1, s2);
        self.reader3().lemma_valid_extends(s1, s2);
    }

    proof fn lemma_frame(&self, v1: Seq<R1::Item>, v2: Seq<R1::Item>, x: R1::Item) {
        assert(agree_on(v1, v2, self.reader1().leaves())) by {
            assert forall|c: usize| #[trigger] self.reader1().leaves().contains(c) implies self.leaves().contains(c) by {}
        }
        assert(agree_on(v1, v2, self.reader2().leaves())) by {
            assert forall|c: usize| #[trigger] self.reader2().leaves().contains(c) implies self.leaves().contains(c) by {}
        }
        assert(agree_on(v1, v2, self.reader3().leaves())) by {
            assert forall|c: usize| #[trigger] self.reader3().leaves().contains(c) implies self.leaves().contains(c) by {}
        }
        if self.produces(v1, x) {
            let (y1, y2, y3) = choose|x1: R1::Item, x2: R1::Item, x3: R1::Item|
                #![trigger call_ensures(self.func(), (x1, x2, x3,), x)]
                self.reader1().produces(v1, x1) && self.reader2().produces(v1, x2) && self.reader3().produces(v1, x3) && call_ensures(self.func(), (x1, x2, x3,), x);
            self.reader1().lemma_frame(v1, v2, y1);
            self.reader2().lemma_frame(v1, v2, y2);
            self.reader3().lemma_frame(v1, v2, y3);
            assert(call_ensures(self.func(), (y1, y2, y3,), x));
        }
        if self.produces(v2, x) {
            let (y1, y2, y3) = choose|x1: R1::Item, x2: R1::Item, x3: R1::Item|
                #![trigger call_ensures(self.func(), (x1, x2, x3,), x)]
                self.reader1().produces(v2, x1) && self.reader2().produces(v2, x2) && self.reader3().produces(v2, x3) && call_ensures(self.func(), (x1, x2, x3,), x);
            self.reader1().lemma_frame(v1, v2, y1);
            self.reader2().lemma_frame(v1, v2, y2);
            self.reader3().lemma_frame(v1, v2, y3);
            assert(call_ensures(self.func(), (y1, y2, y3,), x));
        }
    }

    fn subscribe(&self, store: &mut SignalStore<R1::Item>, waker: &ChangedWakerWrapper) {
        let ghost s0 = store@;
        proof {
            self.reader1().lemma_valid(s0);
            self.reader2().lemma_valid(s0);
            self.reader3().lemma_valid(s0);
            crate::model::lemma_listens_refl(s0, waker.id());
        }
        self.p1.subscribe(store, waker);
        let ghost a1 = store@;
        proof {
            lemma_listens_trans(s0, s0, a1, waker.id());
            assert forall|c: usize|
                (self.reader1().leaves().contains(c)) && s0.cells[c as int].senders > 0 implies #[trigger] a1.cells[c as int].signals.contains(waker.id()) by {
                assert(a1.cells[c as int].value == s0.cells[c as int].value);
            }
        }
        proof {
            lemma_listens_wf(s0, a1, waker.id());
            self.reader2().lemma_valid_extends(s0, a1);
            lemma_not_memo_waker_extends(s0, a1, waker.id());
        }
        self.p2.subscribe(store, waker);
        let ghost a2 = store@;
        proof {
            lemma_listens_trans(s0, a1, a2, waker.id());
            assert forall|c: usize|
                (self.reader1().leaves().contains(c) || self.reader2().leaves().contains(c)) && s0.cells[c as int].senders > 0 implies #[trigger] a2.cells[c as int].signals.contains(waker.id()) by {
                assert(a2.cells[c as int].value == a1.cells[c as int].value);
                assert(a1.cells[c as int].value == s0.cells[c as int].value);
            }
        }
        proof {
            lemma_listens_wf(s0, a2, waker.id());
            self.reader3().lemma_valid_extends(s0, a2);
            lemma_not_memo_waker_extends(s0, a2, waker.id());
        }
        self.p3.subscribe(store, waker);
        let ghost a3 = store@;
        proof {
            lemma_listens_trans(s0, a2, a3, waker.id());
            assert forall|c: usize|
                (self.reader1().leaves().contains(c) || self.reader2().leaves().contains(c) || self.reader3().leaves().contains(c)) && s0.cells[c as int].senders > 0 implies #[trigger] a3.cells[c as int].signals.contains(waker.id()) by {
                assert(a3.cells[c as int].value == a2.cells[c as int].value);
                assert(a2.cells[c as int].value == s0.cells[c as int].value);
            }
        }
        proof {
            assert forall|c: usize|
                #[trigger] self.leaves().contains(c) && s0.cells[c as int].senders > 0 implies store@.cells[c as int].signals.contains(waker.id()) by {
                assert(a3.cells[c as int].signals.contains(waker.id()));
            }
        }
    }

    fn compute(&self, store: &mut SignalStore<R1::Item>) -> (r: R1::Item) {
        let ghost s0 = store@;
        let x1 = self.p1.get(store);
        proof {
            lemma_refreshed_extends(s0, store@);
            self.reader2().lemma_valid_extends(s0, store@);
        }
        let ghost before2 = store@;
        let x2 = self.p2.get(store);
        proof {
            lemma_refreshed_trans(s0, before2, store@);
            lemma_refreshed_extends(before2, store@);
        }
        proof {
            lemma_refreshed_extends(s0, store@);
            self.reader3().lemma_valid_extends(s0, store@);
        }
        let ghost before3 = store@;
        let x3 = self.p3.get(store);
        proof {
            lemma_refreshed_trans(s0, before3, store@);
            lemma_refreshed_extends(before3, store@);
        }
        proof {
            lemma_refreshed_extends(s0, store@);
            assert(self.reader1().produces(store@.values(), x1));
            assert(self.reader2().produces(store@.values(), x2));
            assert(self.reader3().produces(store@.values(), x3));
            assert(call_requires(self.func(), (x1, x2, x3,)));
        }
        let r = (self.f)(x1, x2, x3);
        proof {
            assert(call_ensures(self.func(), (x1, x2, x3,), r));
        }
        r
    }
}

/// The computation of `f` over the values of 4 readers.
pub struct Compute4<R1: Reader, R2: Reader<Item = R1::Item>, R3: Reader<Item = R1::Item>, R4: Reader<Item = R1::Item>, F> {
    p1: R1,
    p2: R2,
    p3: R3,
    p4: R4,
    f: F,
}

impl<R1: Reader, R2: Reader<Item = R1::Item>, R3: Reader<Item = R1::Item>, R4: Reader<Item = R1::Item>, F: Fn(R1::Item, R1::Item, R1::Item, R1::Item) -> R1::Item> Compute4<R1, R2, R3, R4, F> {
    pub closed spec fn reader1(&self) -> R1 {
        self.p1
    }

    pub closed spec fn reader2(&self) -> R2 {
        self.p2
    }

    pub closed spec fn reader3(&self) -> R3 {
        self.p3
    }

    pub closed spec fn reader4(&self) -> R4 {
        self.p4
    }

    pub closed spec fn func(&self) -> F {
        self.f
    }

    pub fn new(p1: R1, p2: R2, p3: R3, p4: R4, f: F) -> (r: Self)
        ensures
            r.reader1() == p1,
            r.reader2() == p2,
            r.reader3() == p3,
            r.reader4() == p4,
            r.func() == f,
    {
        Compute4 { p1, p2, p3, p4, f }
    }
}

impl<R1: Reader, R2: Reader<Item = R1::Item>, R3: Reader<Item = R1::Item>, R4: Reader<Item = R1::Item>, F: Fn(R1::Item, R1::Item, R1::Item, R1::Item) -> R1::Item> Compute for Compute4<R1, R2, R3, R4, F> {
    type Item = R1::Item;

    open spec fn leaves(&self) -> Set<usize> {
        self.reader1().leaves().union(self.reader2().leaves()).union(self.reader3().leaves()).union(self.reader4().leaves())
    }

    open spec fn produces(&self, values: Seq<R1::Item>, v: R1::Item) -> bool {
        exists|x1: R1::Item, x2: R1::Item, x3: R1::Item, x4: R1::Item|
            #![trigger call_ensures(self.func(), (x1, x2, x3, x4,), v)]
            self.reader1().produces(values, x1) && self.reader2().produces(values, x2) && self.reader3().produces(values, x3) && self.reader4().produces(values, x4) && call_ensures(self.func(), (x1, x2, x3, x4,), v)
    }

    open spec fn valid(&self, s: StoreModel<R1::Item>) -> bool {
        &&& self.reader1().valid(s)
        &&& self.reader2().valid(s)
        &&& self.reader3().valid(s)
        &&& self.reader4().valid(s)
    }

    open spec fn accepts(&self, values: Seq<R1::Item>) -> bool {
        &&& self.reader1().accepts(values)
        &&& self.reader2().accepts(values)
        &&& self.reader3().accepts(values)
        &&& self.reader4().accepts(values)
        &&& forall|x1: R1::Item, x2: R1::Item, x3: R1::Item, x4: R1::Item|
            self.reader1().produces(values, x1) && self.reader2().produces(values, x2) && self.reader3().produces(values, x3) && self.reader4().produces(values, x4) ==> #[trigger] call_requires(self.func(), (x1, x2, x3, x4,))
    }

    proof fn lemma_valid(&self, s: StoreModel<R1::Item>) {
        self.reader1().lemma_valid(s);
        self.reader2().lemma_valid(s);
        self.reader3().lemma_valid(s);
        self.reader4().lemma_valid(s);
    }

    proof fn lemma_valid_extends(&self, s1: StoreModel<R1::Item>, s2: StoreModel<R1::Item>) {
        self.reader1().lemma_valid_extends(s1, s2);
        self.reader2().lemma_valid_extends(s1, s2);
        self.reader3().lemma_valid_extends(s1, s2);
        self.reader4().lemma_valid_extends(s1, s2);
    }

    proof fn lemma_frame(&self, v1: Seq<R1::Item>, v2: Seq<R1::Item>, x: R1::Item) {
        assert(agree_on(v1, v2, self.reader1().leaves())) by {
            assert forall|c: usize| #[trigger] self.reader1().leaves().contains(c) implies self.leaves().contains(c) by {}
        }
        assert(agree_on(v1, v2, self.reader2().leaves())) by {
            assert forall|c: usize| #[trigger] self.reader2().leaves().contains(c) implies self.leaves().contains(c) by {}
        }
        assert(agree_on(v1, v2, self.reader3().leaves())) by {
            assert forall|c: usize| #[trigger] self.reader3().leaves().contains(c) implies self.leaves().contains(c) by {}
        }
        assert(agree_on(v1, v2, self.reader4().leaves())) by {
            assert forall|c: usize| #[trigger] self.reader4().leaves().contains(c) implies self.leaves().contains(c) by {}
        }
        if self.produces(v1, x) {
            let (y1, y2, y3, y4) = choose|x1: R1::Item, x2: R1::Item, x3: R1::Item, x4: R1::Item|
                #![trigger call_ensures(self.func(), (x1, x2, x3, x4,), x)]
                self.reader1().produces(v1, x1) && self.reader2().produces(v1, x2) && self.reader3().produces(v1, x3) && self.reader4().produces(v1, x4) && call_ensures(self.func(), (x1, x2, x3, x4,), x);
            self.reader1().lemma_frame(v1, v2, y1);
            self.reader2().lemma_frame(v1, v2, y2);
            self.reader3().lemma_frame(v1, v2, y3);
            self.reader4().lemma_frame(v1, v2, y4);
            assert(call_ensures(self.func(), (y1, y2, y3, y4,), x));
        }
        if self.produces(v2, x) {
            let (y1, y2, y3, y4) = choose|x1: R1::Item, x2: R1::Item, x3: R1::Item, x4: R1::Item|
                #![trigger call_ensures(self.func(), (x1, x2, x3, x4,), x)]
                self.reader1().produces(v2, x1) && self.reader2().produces(v2, x2) && self.reader3().produces(v2, x3) && self.reader4().produces(v2, x4) && call_ensures(self.func(), (x1, x2, x3, x4,), x);
            self.reader1().lemma_frame(v1, v2, y1);
            self.reader2().lemma_frame(v1, v2, y2);
            self.reader3().lemma_frame(v1, v2, y3);
            self.reader4().lemma_frame(v1, v2, y4);
            assert(call_ensures(self.func(), (y1, y2, y3, y4,), x));
        }
    }

    fn subscribe(&self, store: &mut SignalStore<R1::Item>, waker: &ChangedWakerWrapper) {
        let ghost s0 = store@;
        proof {
            self.reader1().lemma_valid(s0);
            self.reader2().lemma_valid(s0);
            self.reader3().lemma_valid(s0);
            self.reader4().lemma_valid(s0);
            crate::model::lemma_listens_refl(s0, waker.id());
        }
        self.p1.subscribe(store, waker);
        let ghost a1 = store@;
        proof {
            lemma_listens_trans(s0, s0, a1, waker.id());
            assert forall|c: usize|
                (self.reader1().leaves().contains(c)) && s0.cells[c as int].senders > 0 implies #[trigger] a1.cells[c as int].signals.contains(waker.id()) by {
                assert(a1.cells[c as int].value == s0.cells[c as int].value);
            }
        }
        proof {
            lemma_listens_wf(s0, a1, waker.id());
            self.reader2().lemma_valid_extends(s0, a1);
            lemma_not_memo_waker_extends(s0, a1, waker.id());
        }
        self.p2.subscribe(store, waker);
        let ghost a2 = store@;
        proof {
            lemma_listens_trans(s0, a1, a2, waker.id());
            assert forall|c: usize|
                (self.reader1().leaves().contains(c) || self.reader2().leaves().contains(c)) && s0.cells[c as int].senders > 0 implies #[trigger] a2.cells[c as int].signals.contains(waker.id()) by {
                assert(a2.cells[c as int].value == a1.cells[c as int].value);
                assert(a1.cells[c as int].value == s0.cells[c as int].value);
            }
        }
        proof {
            lemma_listens_wf(s0, a2, waker.id());
            self.reader3().lemma_valid_extends(s0, a2);
            lemma_not_memo_waker_extends(s0, a2, waker.id());
        }
        self.p3.subscribe(store, waker);
        let ghost a3 = store@;
        proof {
            lemma_listens_trans(s0, a2, a3, waker.id());
            assert forall|c: usize|
                (self.reader1().leaves().contains(c) || self.reader2().leaves().contains(c) || self.reader3().leaves().contains(c)) && s0.cells[c as int].senders > 0 implies #[trigger] a3.cells[c as int].signals.contains(waker.id()) by {
                assert(a3.cells[c as int].value == a2.cells[c as int].value);
                assert(a2.cells[c as int].value == s0.cells[c as int].value);
            }
        }
        proof {
            lemma_listens_wf(s0, a3, waker.id());
            self.reader4().lemma_valid_extends(s0, a3);
            lemma_not_memo_waker_extends(s0, a3, waker.id());
        }
        self.p4.subscribe(store, waker);
        let ghost a4 = store@;
        proof {
            lemma_listens_trans(s0, a3, a4, waker.id());
            assert forall|c: usize|
                (self.reader1().leaves().contains(c) || self.reader2().leaves().contains(c) || self.reader3().leaves().contains(c) || self.reader4().leaves().contains(c)) && s0.cells[c as int].senders > 0 implies #[trigger] a4.cells[c as int].signals.contains(waker.id()) by {
                assert(a4.cells[c as int].value == a3.cells[c as int].value);
                assert(a3.cells[c as int].value == s0.cells[c as int].value);
            }
        }
        proof {
            assert forall|c: usize|
                #[trigger] self.leaves().contains(c) && s0.cells[c as int].senders > 0 implies store@.cells[c as int].signals.contains(waker.id()) by {
                assert(a4.cells[c as int].signals.contains(waker.id()));
            }
        }
    }

    fn compute(&self, store: &mut SignalStore<R1::Item>) -> (r: R1::Item) {
        let ghost s0 = store@;
        let x1 = self.p1.get(store);
        proof {
            lemma_refreshed_extends(s0, store@);
            self.reader2().lemma_valid_extends(s0, store@);
        }
        let ghost before2 = store@;
        let x2 = self.p2.get(store);
        proof {
            lemma_refreshed_trans(s0, before2, store@);
            lemma_refreshed_extends(before2, store@);
        }
        proof {
            lemma_refreshed_extends(s0, store@);
            self.reader3().lemma_valid_extends(s0, store@);
        }
        let ghost before3 = store@;
        let x3 = self.p3.get(store);
        proof {
            lemma_refreshed_trans(s0, before3, store@);
            lemma_refreshed_extends(before3, store@);
        }
        proof {
            lemma_refreshed_extends(s0, store@);
            self.reader4().lemma_valid_extends(s0, store@);
        }
        let ghost before4 = store@;
        let x4 = self.p4.get(store);
        proof {
            lemma_refreshed_trans(s0, before4, store@);
            lemma_refreshed_extends(before4, store@);
        }
        proof {
            lemma_refreshed_extends(s0, store@);
            assert(self.reader1().produces(store@.values(), x1));
            assert(self.reader2().produces(store@.values(), x2));
            assert(self.reader3().produces(store@.values(), x3));
            assert(self.reader4().produces(store@.values(), x4));
            assert(call_requires(self.func(), (x1, x2, x3, x4,)));
        }
        let r = (self.f)(x1, x2, x3, x4);
        proof {
            assert(call_ensures(self.func(), (x1, x2, x3, x4,), r));
        }
        r
    }
}

/// The computation of `f` over the values of 5 readers.
pub struct Compute5<R1: Reader, R2: Reader<Item = R1::Item>, R3: Reader<Item = R1::Item>, R4: Reader<Item = R1::Item>, R5: Reader<Item = R1::Item>, F> {
    p1: R1,
    p2: R2,
    p3: R3,
    p4: R4,
    p5: R5,
    f: F,
}

impl<R1: Reader, R2: Reader<Item = R1::Item>, R3: Reader<Item = R1::Item>, R4: Reader<Item = R1::Item>, R5: Reader<Item = R1::Item>, F: Fn(R1::Item, R1::Item, R1::Item, R1::Item, R1::Item) -> R1::Item> Compute5<R1, R2, R3, R4, R5, F> {
    pub closed spec fn reader1(&self) -> R1 {
        self.p1
    }

    pub closed spec fn reader2(&self) -> R2 {
        self.p2
    }

    pub closed spec fn reader3(&self) -> R3 {
        self.p3
    }

    pub closed spec fn reader4(&self) -> R4 {
        self.p4
    }

    pub closed spec fn reader5(&self) -> R5 {
        self.p5
    }

    pub closed spec fn func(&self) -> F {
        self.f
    }

    pub fn new(p1: R1, p2: R2, p3: R3, p4: R4, p5: R5, f: F) -> (r: Self)
        ensures
            r.reader1() == p1,
            r.reader2() == p2,
            r.reader3() == p3,
            r.reader4() == p4,
            r.reader5() == p5,
            r.func() == f,
    {
        Compute5 { p1, p2, p3, p4, p5, f }
    }
}

impl<R1: Reader, R2: Reader<Item = R1::Item>, R3: Reader<Item = R1::Item>, R4: Reader<Item = R1::Item>, R5: Reader<Item = R1::Item>, F: Fn(R1::Item, R1::Item, R1::Item, R1::Item, R1::Item) -> R1::Item> Compute for Compute5<R1, R2, R3, R4, R5, F> {
    type Item = R1::Item;

    open spec fn leaves(&self) -> Set<usize> {
        self.reader1().leaves().union(self.reader2().leaves()).union(self.reader3().leaves()).union(self.reader4().leaves()).union(self.reader5().leaves())
    }

    open spec fn produces(&self, values: Seq<R1::Item>, v: R1::Item) -> bool {
        exists|x1: R1::Item, x2: R1::Item, x3: R1::Item, x4: R1::Item, x5: R1::Item|
            #![trigger call_ensures(self.func(), (x1, x2, x3, x4, x5,), v)]
            self.reader1().produces(values, x1) && self.reader2().produces(values, x2) && self.reader3().produces(values, x3) && self.reader4().produces(values, x4) && self.reader5().produces(values, x5) && call_ensures(self.func(), (x1, x2, x3, x4, x5,), v)
    }

    open spec fn valid(&self, s: StoreModel<R1::Item>) -> bool {
        &&& self.reader1().valid(s)
        &&& self.reader2().valid(s)
        &&& self.reader3().valid(s)
        &&& self.reader4().valid(s)
        &&& self.reader5().valid(s)
    }

    open spec fn accepts(&self, values: Seq<R1::Item>) -> bool {
        &&& self.reader1().accepts(values)
        &&& self.reader2().accepts(values)
        &&& self.reader3().accepts(values)
        &&& self.reader4().accepts(values)
        &&& self.reader5().accepts(values)
        &&& forall|x1: R1::Item, x2: R1::Item, x3: R1::Item, x4: R1::Item, x5: R1::Item|
            self.reader1().produces(values, x1) && self.reader2().produces(values, x2) && self.reader3().produces(values, x3) && self.reader4().produces(values, x4) && self.reader5().produces(values, x5) ==> #[trigger] call_requires(self.func(), (x1, x2, x3, x4, x5,))
    }

    proof fn lemma_valid(&self, s: StoreModel<R1::Item>) {
        self.reader1().lemma_valid(s);
        self.reader2().lemma_valid(s);
        self.reader3().lemma_valid(s);
        self.reader4().lemma_valid(s);
        self.reader5().lemma_valid(s);
    }

    proof fn lemma_valid_extends(&self, s1: StoreModel<R1::Item>, s2: StoreModel<R1::Item>) {
        self.reader1().lemma_valid_extends(s1, s2);
        self.reader2().lemma_valid_extends(s1, s2);
        self.reader3().lemma_valid_extends(s1, s2);
        self.reader4().lemma_valid_extends(s1, s2);
        self.reader5().lemma_valid_extends(s1, s2);
    }

    proof fn lemma_frame(&self, v1: Seq<R1::Item>, v2: Seq<R1::Item>, x: R1::Item) {
        assert(agree_on(v1, v2, self.reader1().leaves())) by {
            assert forall|c: usize| #[trigger] self.reader1().leaves().contains(c) implies self.leaves().contains(c) by {}
        }
        assert(agree_on(v1, v2, self.reader2().leaves())) by {
            assert forall|c: usize| #[trigger] self.reader2().leaves().contains(c) implies self.leaves().contains(c) by {}
        }
        assert(agree_on(v1, v2, self.reader3().leaves())) by {
            assert forall|c: usize| #[trigger] self.reader3().leaves().contains(c) implies self.leaves().contains(c) by {}
        }
        assert(agree_on(v1, v2, self.reader4().leaves())) by {
            assert forall|c: usize| #[trigger] self.reader4().leaves().contains(c) implies self.leaves().contains(c) by {}
        }
        assert(agree_on(v1, v2, self.reader5().leaves())) by {
            assert forall|c: usize| #[trigger] self.reader5().leaves().contains(c) implies self.leaves().contains(c) by {}
        }
        if self.produces(v1, x) {
            let (y1, y2, y3, y4, y5) = choose|x1: R1::Item, x2: R1::Item, x3: R1::Item, x4: R1::Item, x5: R1::Item|
                #![trigger call_ensures(self.func(), (x1, x2, x3, x4, x5,), x)]
                self.reader1().produces(v1, x1) && self.reader2().produces(v1, x2) && self.reader3().produces(v1, x3) && self.reader4().produces(v1, x4) && self.reader5().produces(v1, x5) && call_ensures(self.func(), (x1, x2, x3, x4, x5,), x);
            self.reader1().lemma_frame(v1, v2, y1);
            self.reader2().lemma_frame(v1, v2, y2);
            self.reader3().lemma_frame(v1, v2, y3);
            self.reader4().lemma_frame(v1, v2, y4);
            self.reader5().lemma_frame(v1, v2, y5);
            assert(call_ensures(self.func(), (y1, y2, y3, y4, y5,), x));
        }
        if self.produces(v2, x) {
            let (y1, y2, y3, y4, y5) = choose|x1: R1::Item, x2: R1::Item, x3: R1::Item, x4: R1::Item, x5: R1::Item|
                #![trigger call_ensures(self.func(), (x1, x2, x3, x4, x5,), x)]
                self.reader1().produces(v2, x1) && self.reader2().produces(v2, x2) && self.reader3().produces(v2, x3) && self.reader4().produces(v2, x4) && self.reader5().produces(v2, x5) && call_ensures(self.func(), (x1, x2, x3, x4, x5,), x);
            self.reader1().lemma_frame(v1, v2, y1);
            self.reader2().lemma_frame(v1, v2, y2);
            self.reader3().lemma_frame(v1, v2, y3);
            self.reader4().lemma_frame(v1, v2, y4);
            self.reader5().lemma_frame(v1, v2, y5);
            assert(call_ensures(self.func(), (y1, y2, y3, y4, y5,), x));
        }
    }

    fn subscribe(&self, store: &mut SignalStore<R1::Item>, waker: &ChangedWakerWrapper) {
        let ghost s0 = store@;
        proof {
            self.reader1().lemma_valid(s0);
            self.reader2().lemma_valid(s0);
            self.reader3().lemma_valid(s0);
            self.reader4().lemma_valid(s0);
            self.reader5().lemma_valid(s0);
            crate::model::lemma_listens_refl(s0, waker.id());
        }
        self.p1.subscribe(store, waker);
        let ghost a1 = store@;
        proof {
            lemma_listens_trans(s0, s0, a1, waker.id());
            assert forall|c: usize|
                (self.reader1().leaves().contains(c)) && s0.cells[c as int].senders > 0 implies #[trigger] a1.cells[c as int].signals.contains(waker.id()) by {
                assert(a1.cells[c as int].value == s0.cells[c as int].value);
            }
        }
        proof {
            lemma_listens_wf(s0, a1, waker.id());
            self.reader2().lemma_valid_extends(s0, a1);
            lemma_not_memo_waker_extends(s0, a1, waker.id());
        }
        self.p2.subscribe(store, waker);
        let ghost a2 = store@;
        proof {
            lemma_listens_trans(s0, a1, a2, waker.id());
            assert forall|c: usize|
                (self.reader1().leaves().contains(c) || self.reader2().leaves().contains(c)) && s0.cells[c as int].senders > 0 implies #[trigger] a2.cells[c as int].signals.contains(waker.id()) by {
                assert(a2.cells[c as int].value == a1.cells[c as int].value);
                assert(a1.cells[c as int].value == s0.cells[c as int].value);
            }
        }
        proof {
            lemma_listens_wf(s0, a2, waker.id());
            self.reader3().lemma_valid_extends(s0, a2);
            lemma_not_memo_waker_extends(s0, a2, waker.id());
        }
        self.p3.subscribe(store, waker);
        let ghost a3 = store@;
        proof {
            lemma_listens_trans(s0, a2, a3, waker.id());
            assert forall|c: usize|
                (self.reader1().leaves().contains(c) || self.reader2().leaves().contains(c) || self.reader3().leaves().contains(c)) && s0.cells[c as int].senders > 0 implies #[trigger] a3.cells[c as int].signals.contains(waker.id()) by {
                assert(a3.cells[c as int].value == a2.cells[c as int].value);
                assert(a2.cells[c as int].value == s0.cells[c as int].value);
            }
        }
        proof {
            lemma_listens_wf(s0, a3, waker.id());
            self.reader4().lemma_valid_extends(s0, a3);
            lemma_not_memo_waker_extends(s0, a3, waker.id());
        }
        self.p4.subscribe(store, waker);
        let ghost a4 = store@;
        proof {
            lemma_listens_trans(s0, a3, a4, waker.id());
            assert forall|c: usize|
                (self.reader1().leaves().contains(c) || self.reader2().leaves().contains(c) || self.reader3().leaves().contains(c) || self.reader4().leaves().contains(c)) && s0.cells[c as int].senders > 0 implies #[trigger] a4.cells[c as int].signals.contains(waker.id()) by {
                assert(a4.cells[c as int].value == a3.cells[c as int].value);
                assert(a3.cells[c as int].value == s0.cells[c as int].value);
            }
        }
        proof {
            lemma_listens_wf(s0, a4, waker.id());
            self.reader5().lemma_valid_extends(s0, a4);
            lemma_not_memo_waker_extends(s0, a4, waker.id());
        }
        self.p5.subscribe(store, waker);
        let ghost a5 = store@;
        proof {
            lemma_listens_trans(s0, a4, a5, waker.id());
            assert forall|c: usize|
                (self.reader1().leaves().contains(c) || self.reader2().leaves().contains(c) || self.reader3().leaves().contains(c) || self.reader4().leaves().contains(c) || self.reader5().leaves().contains(c)) && s0.cells[c as int].senders > 0 implies #[trigger] a5.cells[c as int].signals.contains(waker.id()) by {
                assert(a5.cells[c as int].value == a4.cells[c as int].value);
                assert(a4.cells[c as int].value == s0.cells[c as int].value);
            }
        }
        proof {
            assert forall|c: usize|
                #[trigger] self.leaves().contains(c) && s0.cells[c as int].senders > 0 implies store@.cells[c as int].signals.contains(waker.id()) by {
                assert(a5.cells[c as int].signals.contains(waker.id()));
            }
        }
    }

    fn compute(&self, store: &mut SignalStore<R1::Item>) -> (r: R1::Item) {
        let ghost s0 = store@;
        let x1 = self.p1.get(store);
        proof {
            lemma_refreshed_extends(s0, store@);
            self.reader2().lemma_valid_extends(s0, store@);
        }
        let ghost before2 = store@;
        let x2 = self.p2.get(store);
        proof {
            lemma_refreshed_trans(s0, before2, store@);
            lemma_refreshed_extends(before2, store@);
        }
        proof {
            lemma_refreshed_extends(s0, store@);
            self.reader3().lemma_valid_extends(s0, store@);
        }
        let ghost before3 = store@;
        let x3 = self.p3.get(store);
        proof {
            lemma_refreshed_trans(s0, before3, store@);
            lemma_refreshed_extends(before3, store@);
        }
        proof {
            lemma_refreshed_extends(s0, store@);
            self.reader4().lemma_valid_extends(s0, store@);
        }
        let ghost before4 = store@;
        let x4 = self.p4.get(store);
        proof {
            lemma_refreshed_trans(s0, before4, store@);
            lemma_refreshed_extends(before4, store@);
        }
        proof {
            lemma_refreshed_extends(s0, store@);
            self.reader5().lemma_valid_extends(s0, store@);
        }
        let ghost before5 = store@;
        let x5 = self.p5.get(store);
        proof {
            lemma_refreshed_trans(s0, before5, store@);
            lemma_refreshed_extends(before5, store@);
        }
        proof {
            lemma_refreshed_extends(s0, store@);
            assert(self.reader1().produces(store@.values(), x1));
            assert(self.reader2().produces(store@.values(), x2));
            assert(self.reader3().produces(store@.values(), x3));
            assert(self.reader4().produces(store@.values(), x4));
            assert(self.reader5().produces(store@.values(), x5));
            assert(call_requires(self.func(), (x1, x2, x3, x4, x5,)));
        }
        let r = (self.f)(x1, x2, x3, x4, x5);
        proof {
            assert(call_ensures(self.func(), (x1, x2, x3, x4, x5,), r));
        }
        r
    }
}
} // verus!
