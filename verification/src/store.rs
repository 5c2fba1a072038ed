//! The shared state of mutables and memos: change notifiers, mutable cells
//! and memo caches, held in one store that the handles refer to by index.
use vstd::prelude::*;

use crate::model::{fresh_waker, woken, CellModel, MemoModel, StoreModel, WakerModel};
use crate::task::{clone_waker, wake_task};

verus! {

/// A change notifier, shared between the signal (or memo) that owns it and
/// the cells it listens to.
pub struct ChangedWaker {
    changed: bool,
    closed: bool,
    waker: Option<std::task::Waker>,
    alive: bool,
}

impl View for ChangedWaker {
    type V = WakerModel;

    closed spec fn view(&self) -> WakerModel {
        WakerModel {
            changed: self.changed,
            closed: self.closed,
            task: self.waker,
            alive: self.alive,
        }
    }
}

pub open spec fn waker_models(v: Seq<ChangedWaker>) -> Seq<WakerModel> {
    v.map_values(|w: ChangedWaker| w@)
}

impl ChangedWaker {
    pub(crate) fn new() -> (r: Self)
        ensures
            r@ == fresh_waker(),
    {
        ChangedWaker { changed: true, closed: false, waker: None, alive: true }
    }

    /// Raises the flags asked for and wakes the waiting task, if any.
    pub(crate) fn wake(&mut self, changed: bool, closed: bool)
        ensures
            final(self)@ == woken(old(self)@, changed, closed),
    {
        if changed {
            self.changed = true;
        }
        if closed {
            self.closed = true;
        }
        let waker = self.waker.take();
        if let Some(waker) = waker {
            wake_task(waker);
        }
    }

    /// Remembers a copy of `waker`, the waker of the polling task, to be
    /// woken on the next change; a waker remembered before is dropped.
    pub(crate) fn set_waker(&mut self, waker: &std::task::Waker)
        ensures
            final(self)@.task matches Some(t) && cloned(*waker, t)
                && final(self)@ == (WakerModel { task: Some(t), ..old(self)@ }),
    {
        self.waker = Some(clone_waker(waker));
    }

    /// Reports whether a change is pending, and forgets it.
    pub(crate) fn is_changed(&mut self) -> (r: bool)
        ensures
            r == old(self)@.changed,
            final(self)@ == (WakerModel { changed: false, ..old(self)@ }),
    {
        let r = self.changed;
        self.changed = false;
        r
    }

    pub(crate) fn is_closed(&self) -> (r: bool)
        ensures
            r == self@.closed,
    {
        self.closed
    }

    pub(crate) fn is_alive(&self) -> (r: bool)
        ensures
            r == self@.alive,
    {
        self.alive
    }

    /// The owner of the notifier is gone.
    pub(crate) fn release(&mut self)
        ensures
            final(self)@ == (WakerModel { alive: false, ..old(self)@ }),
    {
        self.alive = false;
    }
}

proof fn lemma_filter_step(s: Seq<usize>, i: int, p: spec_fn(usize) -> bool)
    requires
        0 <= i < s.len(),
    ensures
        s.take(i + 1).filter(p) == (if p(s[i]) {
            s.take(i).filter(p).push(s[i])
        } else {
            s.take(i).filter(p)
        }),
{
    reveal(Seq::filter);
    assert(s.take(i + 1).drop_last() =~= s.take(i));
    assert(s.take(i + 1).last() == s[i]);
}

/// The value of a mutable and the notifiers listening to it.
pub struct MutableLockState<A> {
    value: A,
    signals: Vec<usize>,
}

impl<A> MutableLockState<A> {
    pub closed spec fn value_spec(&self) -> A {
        self.value
    }

    pub closed spec fn signals_spec(&self) -> Seq<usize> {
        self.signals@
    }

    pub fn value(&self) -> (r: &A)
        ensures
            *r == self.value_spec(),
    {
        &self.value
    }

    pub(crate) fn push_signal(&mut self, waker: usize)
        ensures
            final(self).value_spec() == old(self).value_spec(),
            final(self).signals_spec() == old(self).signals_spec().push(waker),
    {
        self.signals.push(waker);
    }

    /// Wakes every notifier on the list whose owner still exists, with the
    /// given flags, and drops the others from the list.
    pub(crate) fn notify(&mut self, wakers: &mut Vec<ChangedWaker>, has_changed: bool, closed: bool)
        requires
            forall|k: int|
                0 <= k < old(self).signals_spec().len() ==> #[trigger] old(self).signals_spec()[k]
                    < old(wakers).len(),
        ensures
            final(self).value_spec() == old(self).value_spec(),
            final(self).signals_spec() == old(self).signals_spec().filter(
                |w: usize| waker_models(old(wakers)@)[w as int].alive,
            ),
            waker_models(final(wakers)@) == waker_models(old(wakers)@).map(
                |w: int, m: WakerModel|
                    if old(self).signals_spec().contains(w as usize) && m.alive {
                        woken(m, has_changed, closed)
                    } else {
                        m
                    },
            ),
    {
        let ghost sigs = self.signals@;
        let ghost before = waker_models(wakers@);
        let ghost alive_pred = |w: usize| before[w as int].alive;
        let mut kept: Vec<usize> = Vec::new();
        let n = self.signals.len();
        let mut i: usize = 0;
        let n_wakers = wakers.len();
        assert(before.len() == n_wakers);
        assert forall|k: int| 0 <= k < sigs.len() implies #[trigger] sigs[k] < before.len() by {
            assert(old(self).signals_spec()[k] == sigs[k]);
        }
        while i < n
            invariant
                n == sigs.len(),
                self.signals@ == sigs,
                sigs == old(self).signals_spec(),
                self.value == old(self).value,
                before == waker_models(old(wakers)@),
                alive_pred == (|w: usize| before[w as int].alive),
                0 <= i <= n,
                wakers@.len() == before.len(),
                before.len() == n_wakers,
                forall|k: int| 0 <= k < sigs.len() ==> #[trigger] sigs[k] < before.len(),
                forall|w: int|
                    0 <= w < before.len() ==> #[trigger] waker_models(wakers@)[w] == (
                    if sigs.take(i as int).contains(w as usize) && before[w].alive {
                        woken(before[w], has_changed, closed)
                    } else {
                        before[w]
                    }),
                kept@ == sigs.take(i as int).filter(alive_pred),
            decreases n - i,
        {
            let w = self.signals[i];
            proof {
                assert(sigs.take(i + 1) =~= sigs.take(i as int).push(w));
                assert(sigs.take(i + 1).drop_last() =~= sigs.take(i as int));
                assert forall|x: usize| #[trigger]
                    sigs.take(i + 1).contains(x) <==> (sigs.take(i as int).contains(x) || x == w) by {
                    if x == w {
                        assert(sigs.take(i + 1)[i as int] == w);
                    }
                    if sigs.take(i as int).contains(x) {
                        let k = choose|k: int| 0 <= k < i && sigs.take(i as int)[k] == x;
                        assert(sigs.take(i + 1)[k] == x);
                    }
                }
                assert(waker_models(wakers@)[w as int] == wakers@[w as int]@);
                reveal(Seq::filter);
            }
            let ghost prev = waker_models(wakers@);
            let ghost prev_vec = wakers@;
            let alive = wakers[w].is_alive();
            let ghost kept_before = kept@;
            proof {
                assert(sigs[i as int] == w);
                assert(alive == before[w as int].alive);
                assert(alive_pred(w) == alive);
                assert(sigs.take(i + 1).last() == w);
            }
            if alive {
                wakers[w].wake(has_changed, closed);
                kept.push(w);
                proof {
                    assert(wakers@ == prev_vec.update(w as int, wakers@[w as int]));
                    assert(wakers@[w as int]@ == woken(prev_vec[w as int]@, has_changed, closed));
                }
            }
            proof {
                assert forall|x: int| 0 <= x < before.len() implies #[trigger] waker_models(wakers@)[x] == (
                if sigs.take(i + 1).contains(x as usize) && before[x].alive {
                    woken(before[x], has_changed, closed)
                } else {
                    before[x]
                }) by {
                    assert(waker_models(wakers@)[x] == wakers@[x]@);
                    assert(prev[x] == prev_vec[x]@);
                    assert(prev[x] == (if sigs.take(i as int).contains(x as usize) && before[x].alive {
                        woken(before[x], has_changed, closed)
                    } else {
                        before[x]
                    }));
                    if x != w as int {
                        assert(wakers@[x] == prev_vec[x]);
                        assert(sigs.take(i + 1).contains(x as usize) == sigs.take(i as int).contains(x as usize));
                    } else {
                        assert(sigs.take(i + 1).contains(x as usize));
                        if alive {
                            assert(wakers@[x]@ == woken(prev[x], has_changed, closed));
                        } else {
                            assert(wakers@[x] == prev_vec[x]);
                        }
                    }
                }
                lemma_filter_step(sigs, i as int, alive_pred);
                if alive {
                    assert(kept@ == kept_before.push(w));
                } else {
                    assert(kept@ == kept_before);
                }
                assert(kept@ == sigs.take(i + 1).filter(alive_pred));
            }
            i = i + 1;
        }
        proof {
            assert(sigs.take(n as int) =~= sigs);
        }
        self.signals = kept;
        proof {
            assert(waker_models(wakers@) =~= before.map(
                |w: int, m: WakerModel|
                    if sigs.contains(w as usize) && m.alive {
                        woken(m, has_changed, closed)
                    } else {
                        m
                    },
            ));
        }
    }
}


/// A mutable cell: its state and how many `Mutable` handles still exist.
pub struct MutableState<A> {
    senders: usize,
    lock: MutableLockState<A>,
}

/// The cached value of a memo; there is none before the first read.
pub struct MemoLockState<A> {
    value: Option<A>,
}

/// A memo's cache, its own notifier, and (as ghost state) the cells it
/// depends on and the relation its computation obeys.
#[verifier::reject_recursive_types(A)]
pub struct MemoState<A> {
    lock: MemoLockState<A>,
    waker: usize,
    leaves: Ghost<Set<usize>>,
    rel: Ghost<spec_fn(Seq<A>, A) -> bool>,
}

/// The shared state of every mutable and memo created from it, and of the
/// notifiers of their signals.
#[verifier::reject_recursive_types(A)]
pub struct SignalStore<A> {
    wakers: Vec<ChangedWaker>,
    mutables: Vec<MutableState<A>>,
    memos: Vec<MemoState<A>>,
}

impl<A> MutableState<A> {
    pub closed spec fn written(self, v: A) -> Self {
        MutableState { lock: MutableLockState { value: v, ..self.lock }, ..self }
    }

    pub closed spec fn model(self) -> CellModel<A> {
        CellModel { value: self.lock.value, senders: self.senders, signals: self.lock.signals@ }
    }
}

impl<A> MemoState<A> {
    pub closed spec fn model(self) -> MemoModel<A> {
        MemoModel { cache: self.lock.value, waker: self.waker, leaves: self.leaves@, rel: self.rel@ }
    }
}

impl<A> View for SignalStore<A> {
    type V = StoreModel<A>;

    closed spec fn view(&self) -> StoreModel<A> {
        StoreModel {
            wakers: waker_models(self.wakers@),
            cells: self.mutables@.map_values(|m: MutableState<A>| m.model()),
            memos: self.memos@.map_values(|m: MemoState<A>| m.model()),
        }
    }
}

impl<A> SignalStore<A> {
    /// An empty store.
    pub fn new() -> (r: Self)
        ensures
            r@.wakers.len() == 0,
            r@.cells.len() == 0,
            r@.memos.len() == 0,
            r@.wf(),
    {
        SignalStore { wakers: Vec::new(), mutables: Vec::new(), memos: Vec::new() }
    }

    pub(crate) fn new_waker(&mut self) -> (w: usize)
        ensures
            w == old(self)@.wakers.len(),
            final(self)@ == (StoreModel { wakers: old(self)@.wakers.push(fresh_waker()), ..old(self)@ }),
    {
        let w = self.wakers.len();
        self.wakers.push(ChangedWaker::new());
        proof {
            assert(waker_models(self.wakers@) =~= waker_models(old(self).wakers@).push(fresh_waker()));
        }
        w
    }

    pub(crate) fn waker_is_changed(&mut self, w: usize) -> (r: bool)
        requires
            w < old(self)@.wakers.len(),
        ensures
            r == old(self)@.wakers[w as int].changed,
            final(self)@ == old(self)@.with_waker(
                w as int,
                WakerModel { changed: false, ..old(self)@.wakers[w as int] },
            ),
    {
        let r = self.wakers[w].is_changed();
        proof {
            assert(waker_models(self.wakers@) =~= old(self)@.wakers.update(
                w as int,
                WakerModel { changed: false, ..old(self)@.wakers[w as int] },
            ));
        }
        r
    }

    pub(crate) fn waker_has_change(&self, w: usize) -> (r: bool)
        requires
            w < self@.wakers.len(),
        ensures
            r == self@.wakers[w as int].changed,
    {
        let r = self.wakers[w].changed;
        r
    }

    pub(crate) fn waker_is_closed(&self, w: usize) -> (r: bool)
        requires
            w < self@.wakers.len(),
        ensures
            r == self@.wakers[w as int].closed,
    {
        self.wakers[w].is_closed()
    }

    pub(crate) fn waker_set(&mut self, w: usize, waker: &std::task::Waker)
        requires
            w < old(self)@.wakers.len(),
        ensures
            final(self)@.wakers[w as int].task matches Some(t) && cloned(*waker, t)
                && final(self)@ == old(self)@.after_waiting(w as int, t),
    {
        self.wakers[w].set_waker(waker);
        proof {
            let t = self.wakers@[w as int]@.task->0;
            assert(waker_models(self.wakers@) =~= old(self)@.wakers.update(
                w as int,
                WakerModel { task: Some(t), ..old(self)@.wakers[w as int] },
            ));
        }
    }

    pub(crate) fn waker_release(&mut self, w: usize)
        requires
            w < old(self)@.wakers.len(),
        ensures
            final(self)@ == old(self)@.with_waker(
                w as int,
                WakerModel { alive: false, ..old(self)@.wakers[w as int] },
            ),
    {
        self.wakers[w].release();
        proof {
            assert(waker_models(self.wakers@) =~= old(self)@.wakers.update(
                w as int,
                WakerModel { alive: false, ..old(self)@.wakers[w as int] },
            ));
        }
    }
}


impl<A> SignalStore<A> {
    pub(crate) fn add_cell(&mut self, value: A) -> (c: usize)
        ensures
            c == old(self)@.cells.len(),
            final(self)@ == (StoreModel {
                cells: old(self)@.cells.push(CellModel { value, senders: 1, signals: Seq::empty() }),
                ..old(self)@
            }),
    {
        let c = self.mutables.len();
        self.mutables.push(MutableState { senders: 1, lock: MutableLockState { value, signals: Vec::new() } });
        proof {
            assert(self@.cells =~= old(self)@.cells.push(
                CellModel { value, senders: 1, signals: Seq::empty() },
            ));
        }
        c
    }

    pub(crate) fn cell_count(&self) -> (r: usize)
        ensures
            r == self@.cells.len(),
    {
        self.mutables.len()
    }

    pub(crate) fn cell_lock(&self, c: usize) -> (r: &MutableLockState<A>)
        requires
            c < self@.cells.len(),
        ensures
            r.value_spec() == self@.cells[c as int].value,
            r.signals_spec() == self@.cells[c as int].signals,
    {
        &self.mutables[c].lock
    }

    pub(crate) fn cell_value(&self, c: usize) -> (r: &A)
        requires
            c < self@.cells.len(),
        ensures
            *r == self@.cells[c as int].value,
    {
        &self.mutables[c].lock.value
    }

    /// Mutable access to the value of cell `c`; `base` is an earlier state
    /// from which only this cell's value has been written since.
    pub(crate) fn cell_value_mut(&mut self, c: usize, base: Ghost<Self>) -> (r: &mut A)
        requires
            c < old(self)@.cells.len(),
            old(self).value_written(base@, c, old(self)@.cells[c as int].value),
        ensures
            *r == old(self)@.cells[c as int].value,
            final(self).value_written(base@, c, *final(r)),
            final(self)@.cells[c as int].value == *final(r),
    {
        proof {
            let b = base@;
            assert forall|m: MutableState<A>|
                m.senders == self.mutables@[c as int].senders && m.lock.signals
                    == self.mutables@[c as int].lock.signals implies #[trigger] self.mutables@.update(c as int, m)
                == b.mutables@.update(c as int, b.mutables@[c as int].written(m.lock.value)) by {
                assert(self.mutables@.update(c as int, m) =~= b.mutables@.update(
                    c as int,
                    b.mutables@[c as int].written(m.lock.value),
                ));
            }
        }
        &mut self.mutables[c].lock.value
    }

    /// `self` is `old` with `v` written into cell `c`, and nothing else changed.
    pub closed spec fn value_written(self, old: Self, c: usize, v: A) -> bool {
        &&& c < old.mutables@.len()
        &&& self.wakers == old.wakers
        &&& self.memos == old.memos
        &&& self.mutables@ == old.mutables@.update(c as int, old.mutables@[c as int].written(v))
    }

    pub proof fn lemma_value_written_refl(self, c: usize)
        requires
            c < self@.cells.len(),
        ensures
            self.value_written(self, c, self@.cells[c as int].value),
    {
        assert(self.mutables@ =~= self.mutables@.update(
            c as int,
            self.mutables@[c as int].written(self@.cells[c as int].value),
        ));
    }

    pub proof fn lemma_value_written(self, old: Self, c: usize, v: A)
        requires
            self.value_written(old, c, v),
        ensures
            self@ == old@.with_value(c as int, v),
            self@.cells[c as int].value == v,
    {
        assert(self@.cells =~= old@.with_value(c as int, v).cells);
    }

    pub(crate) fn cell_set(&mut self, c: usize, value: A)
        requires
            c < old(self)@.cells.len(),
        ensures
            final(self)@ == old(self)@.with_value(c as int, value),
    {
        self.mutables[c].lock.value = value;
        proof {
            assert(self@.cells =~= old(self)@.with_value(c as int, value).cells);
        }
    }

    pub(crate) fn cell_replace(&mut self, c: usize, value: A) -> (r: A)
        requires
            c < old(self)@.cells.len(),
        ensures
            r == old(self)@.cells[c as int].value,
            final(self)@ == old(self)@.with_value(c as int, value),
    {
        let mut value = value;
        std::mem::swap(&mut self.mutables[c].lock.value, &mut value);
        proof {
            assert(self@.cells =~= old(self)@.with_value(c as int, self@.cells[c as int].value).cells);
        }
        value
    }

    pub(crate) fn cell_swap(&mut self, c1: usize, c2: usize)
        requires
            c1 < old(self)@.cells.len(),
            c2 < old(self)@.cells.len(),
            c1 != c2,
        ensures
            final(self)@ == old(self)@.with_value(c1 as int, old(self)@.cells[c2 as int].value).with_value(
                c2 as int,
                old(self)@.cells[c1 as int].value,
            ),
    {
        let mut s1 = self.mutables.remove(c1);
        let c2x: usize = if c2 < c1 { c2 } else { c2 - 1 };
        std::mem::swap(&mut s1.lock.value, &mut self.mutables[c2x].lock.value);
        self.mutables.insert(c1, s1);
        proof {
            assert(self@.cells =~= old(self)@.with_value(c1 as int, old(self)@.cells[c2 as int].value).with_value(
                c2 as int,
                old(self)@.cells[c1 as int].value,
            ).cells);
        }
    }

    pub(crate) fn cell_senders(&self, c: usize) -> (r: usize)
        requires
            c < self@.cells.len(),
        ensures
            r == self@.cells[c as int].senders,
    {
        self.mutables[c].senders
    }

    pub(crate) fn cell_set_senders(&mut self, c: usize, n: usize)
        requires
            c < old(self)@.cells.len(),
        ensures
            final(self)@ == old(self)@.with_senders(c as int, n),
    {
        self.mutables[c].senders = n;
        proof {
            assert(self@.cells =~= old(self)@.with_senders(c as int, n).cells);
        }
    }

    pub(crate) fn cell_push_signal(&mut self, c: usize, w: usize)
        requires
            c < old(self)@.cells.len(),
        ensures
            final(self)@ == old(self)@.with_signals(c as int, old(self)@.cells[c as int].signals.push(w)),
    {
        self.mutables[c].lock.push_signal(w);
        proof {
            assert(self@.cells =~= old(self)@.with_signals(
                c as int,
                old(self)@.cells[c as int].signals.push(w),
            ).cells);
        }
    }

    pub(crate) fn cell_has_signals(&self, c: usize) -> (r: bool)
        requires
            c < self@.cells.len(),
        ensures
            r == (self@.cells[c as int].signals.len() > 0),
    {
        self.mutables[c].lock.signals.len() > 0
    }

    pub(crate) fn cell_clear_signals(&mut self, c: usize)
        requires
            c < old(self)@.cells.len(),
        ensures
            final(self)@ == old(self)@.with_signals(c as int, Seq::empty()),
    {
        self.mutables[c].lock.signals = Vec::new();
        proof {
            assert(self@.cells =~= old(self)@.with_signals(c as int, Seq::empty()).cells);
        }
    }

    pub(crate) fn cell_notify(&mut self, c: usize, has_changed: bool, closed: bool)
        requires
            c < old(self)@.cells.len(),
            forall|k: int|
                0 <= k < old(self)@.cells[c as int].signals.len()
                    ==> #[trigger] old(self)@.cells[c as int].signals[k] < old(self)@.wakers.len(),
        ensures
            final(self)@ == old(self)@.notified(c as int, has_changed, closed),
    {
        proof {
            assert(self.mutables@[c as int].lock.signals_spec() == self@.cells[c as int].signals);
            assert forall|k: int|
                0 <= k < self.mutables@[c as int].lock.signals_spec().len() implies #[trigger] self.mutables@[c as int].lock.signals_spec()[k]
                    < self.wakers.len() by {
                assert(self@.cells[c as int].signals[k] < self@.wakers.len());
            }
        }
        self.mutables[c].lock.notify(&mut self.wakers, has_changed, closed);
        proof {
            let n = old(self)@.notified(c as int, has_changed, closed);
            assert(self@.cells =~= n.cells);
            assert(self@.wakers =~= n.wakers);
        }
    }
}


impl<A> SignalStore<A> {
    pub(crate) fn add_memo(
        &mut self,
        waker: usize,
        leaves: Ghost<Set<usize>>,
        rel: Ghost<spec_fn(Seq<A>, A) -> bool>,
    ) -> (j: usize)
        ensures
            j == old(self)@.memos.len(),
            final(self)@ == (StoreModel {
                memos: old(self)@.memos.push(MemoModel { cache: None, waker, leaves: leaves@, rel: rel@ }),
                ..old(self)@
            }),
    {
        let j = self.memos.len();
        self.memos.push(MemoState { lock: MemoLockState { value: None }, waker, leaves, rel });
        proof {
            assert(self@.memos =~= old(self)@.memos.push(
                MemoModel { cache: None, waker, leaves: leaves@, rel: rel@ },
            ));
        }
        j
    }

    pub(crate) fn memo_waker(&self, j: usize) -> (w: usize)
        requires
            j < self@.memos.len(),
        ensures
            w == self@.memos[j as int].waker,
    {
        self.memos[j].waker
    }

    pub(crate) fn memo_cache(&self, j: usize) -> (r: &Option<A>)
        requires
            j < self@.memos.len(),
        ensures
            *r == self@.memos[j as int].cache,
    {
        &self.memos[j].lock.value
    }

    pub(crate) fn memo_value(&self, j: usize) -> (r: &A)
        requires
            j < self@.memos.len(),
            self@.memos[j as int].cache is Some,
        ensures
            *r == self@.memos[j as int].cache->0,
    {
        match &self.memos[j].lock.value {
            Some(v) => v,
            None => {
                proof {
                    assert(self@.memos[j as int].cache == self.memos@[j as int].lock.value);
                }
                unreached()
            },
        }
    }

    pub(crate) fn memo_set_cache(&mut self, j: usize, value: A)
        requires
            j < old(self)@.memos.len(),
        ensures
            final(self)@ == old(self)@.with_cache(j as int, value),
    {
        self.memos[j].lock.value = Some(value);
        proof {
            assert(self@.memos =~= old(self)@.with_cache(j as int, value).memos);
        }
    }
}

} // verus!
