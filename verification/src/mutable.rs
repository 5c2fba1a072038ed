//! Mutables: a value that signals can observe, with the handles that read it
//! (`ReadOnlyMutable`), write it (`Mutable`) and lock it.
use std::marker::PhantomData;
use vstd::prelude::*;

use crate::model::{
    fresh_waker, lemma_add_cell_wf, lemma_notified_listener, woken, lemma_after_close_wf, lemma_after_write_wf,
    lemma_extends_trans, lemma_new_waker_wf, lemma_push_signal_wf, lemma_listens_wf,
    lemma_not_memo_waker_extends, lemma_with_senders_wf, lemma_with_waker_wf, CellModel, StoreModel,
    WakerModel,
};
use crate::signal::Signal;
use crate::store::{MutableLockState, SignalStore};
use crate::task::{context_waker, Poll};
use vstd::std_specs::cmp::PartialEqSpec;

verus! {

/// Shared access to the value of a mutable.
pub struct MutableLockRef<'a, A> {
    lock: &'a MutableLockState<A>,
}

impl<'a, A> MutableLockRef<'a, A> {
    pub closed spec fn value_spec(&self) -> A {
        self.lock.value_spec()
    }
}

impl<'a, A> std::ops::Deref for MutableLockRef<'a, A> {
    type Target = A;

    fn deref(&self) -> (r: &A)
        ensures
            *r == self.value_spec(),
    {
        self.lock.value()
    }
}

/// Exclusive access to the value of a mutable. Writing through it marks it
/// as mutated; dropping it tells the listeners of the cell, if it was
/// mutated, and nothing otherwise.
#[verifier::reject_recursive_types(A)]
pub struct MutableLockMut<'a, A> {
    pub mutated: bool,
    pub store: &'a mut SignalStore<A>,
    pub cell: usize,
    /// The store as it was when the lock was taken.
    pub base: Ghost<SignalStore<A>>,
}

impl<'a, A> MutableLockMut<'a, A> {
    /// The lock holds a coherent store in which only the locked cell may
    /// have been written, and only if the lock is marked as mutated.
    pub open spec fn inv(&self) -> bool {
        &&& self.cell < self.base@@.cells.len()
        &&& self.base@@.wf()
        &&& self.base@@.cells[self.cell as int].senders > 0
        &&& (*self.store).value_written(self.base@, self.cell, self.store@.cells[self.cell as int].value)
        &&& !self.mutated ==> *self.store == self.base@
    }

    pub fn deref(&self) -> (r: &A)
        requires
            self.inv(),
        ensures
            *r == old(self.store)@.cells[self.cell as int].value,
    {
        proof {
            (*self.store).lemma_value_written(self.base@, self.cell, self.store@.cells[self.cell as int].value);
        }
        self.store.cell_value(self.cell)
    }

    pub fn deref_mut(&mut self) -> (r: &mut A)
        requires
            old(self).inv(),
        ensures
            *r == old(self).store@.cells[old(self).cell as int].value,
            final(self).mutated,
            final(self).cell == old(self).cell,
            final(self).base@ == old(self).base@,
            (*final(self).store).value_written(old(self).base@, old(self).cell, *final(r)),
            *final(final(self).store) == *final(old(self).store),
            final(self).inv(),
            final(self).store@.cells[old(self).cell as int].value == *final(r),
    {
        proof {
            (*self.store).lemma_value_written(self.base@, self.cell, self.store@.cells[self.cell as int].value);
        }
        self.mutated = true;
        self.store.cell_value_mut(self.cell, Ghost(self.base@))
    }

    /// Releases the lock: listeners hear of a change only if the value was
    /// written through the lock.
    pub fn drop(self)
        requires
            self.inv(),
        ensures
            final(self.store)@ == (if self.mutated {
                self.base@@.after_write(
                    self.cell as int,
                    old(self.store)@.cells[self.cell as int].value,
                )
            } else {
                self.base@@
            }),
            final(self.store)@.wf(),
            final(self.store)@.extends(self.base@@),
    {
        let ghost v = self.store@.cells[self.cell as int].value;
        proof {
            (*self.store).lemma_value_written(self.base@, self.cell, v);
            lemma_after_write_wf(self.base@@, self.cell, v);
            crate::model::lemma_extends_refl(self.base@@);
        }
        if self.mutated {
            self.store.cell_notify(self.cell, true, false);
        }
    }
}

/// The notifier of a signal made from a mutable, and the cell it watches.
pub struct MutableSignalState<A> {
    waker: usize,
    state: usize,
    marker: PhantomData<A>,
}

impl<A> MutableSignalState<A> {
    pub closed spec fn waker(&self) -> usize {
        self.waker
    }

    pub closed spec fn cell(&self) -> usize {
        self.state
    }

    /// The signal names a cell of the store and a notifier of its own.
    pub open spec fn valid(&self, s: StoreModel<A>) -> bool {
        &&& self.cell() < s.cells.len()
        &&& self.waker() < s.wakers.len()
        &&& !s.is_memo_waker(self.waker())
    }

    fn new(store: &mut SignalStore<A>, cell: usize) -> (r: Self)
        requires
            old(store)@.wf(),
            cell < old(store)@.cells.len(),
        ensures
            r.waker() == old(store)@.wakers.len(),
            r.cell() == cell,
            final(store)@ == (StoreModel { wakers: old(store)@.wakers.push(fresh_waker()), ..old(store)@ }),
            final(store)@.wf(),
            final(store)@.extends(old(store)@),
            r.valid(final(store)@),
    {
        let ghost s0 = store@;
        let waker = store.new_waker();
        proof {
            lemma_new_waker_wf(s0, waker);
            assert(!store@.is_memo_waker(waker)) by {
                if store@.is_memo_waker(waker) {
                    let j = choose|j: int| 0 <= j < store@.memos.len() && #[trigger] store@.memos[j].waker == waker;
                    assert(old(store)@.memos[j].waker == waker);
                }
            }
        }
        MutableSignalState { waker, state: cell, marker: PhantomData }
    }

    /// Reports the current value (mapped by `f`) if a change is pending, the
    /// end of the signal if the mutable is gone, and otherwise registers the
    /// polling task, whose waker is `waker`, to be woken on the next change.
    fn poll_change<B, F: FnOnce(&A) -> B>(&self, store: &mut SignalStore<A>, waker: &std::task::Waker, f: F) -> (r: Poll<Option<B>>)
        requires
            old(store)@.wf(),
            self.valid(old(store)@),
            call_requires(f, (&old(store)@.cells[self.cell() as int].value,)),
        ensures
            final(store)@ == old(store)@.after_poll(self.waker() as int, final(store)@.wakers[self.waker() as int].task->0),
            final(store)@.wf(),
            final(store)@.extends(old(store)@),
            final(store)@.values() == old(store)@.values(),
            old(store)@.wakers[self.waker() as int].changed ==> (r matches Poll::Ready(Some(b)) && call_ensures(
                f,
                (&old(store)@.cells[self.cell() as int].value,),
                b,
            )),
            !old(store)@.wakers[self.waker() as int].changed && old(store)@.wakers[self.waker() as int].closed
                ==> r matches Poll::Ready(None),
            !old(store)@.wakers[self.waker() as int].changed && !old(store)@.wakers[self.waker() as int].closed
                ==> (r matches Poll::Pending) && (final(store)@.wakers[self.waker() as int].task matches Some(t)
                    && cloned(*waker, t)),
    {
        let ghost s0 = store@;
        let w = self.waker;
        proof {
            lemma_with_waker_wf(s0, w, WakerModel { changed: false, ..s0.wakers[w as int] });
        }
        if store.waker_is_changed(w) {
            let value = f(store.cell_value(self.state));
            Poll::Ready(Some(value))
        } else {
            proof {
                assert(store@.wakers =~= s0.wakers);
                assert(store@ == s0);
            }
            if store.waker_is_closed(w) {
                Poll::Ready(None)
            } else {
                store.waker_set(w, waker);
                proof {
                    let t = store@.wakers[w as int].task->0;
                    lemma_with_waker_wf(s0, w, WakerModel { task: Some(t), ..s0.wakers[w as int] });
                }
                Poll::Pending
            }
        }
    }
}

/// A read-only handle on a mutable.
pub struct ReadOnlyMutable<A> {
    id: usize,
    marker: PhantomData<A>,
}

impl<A> Clone for ReadOnlyMutable<A> {
    fn clone(&self) -> (r: Self)
        ensures
            r.cell() == self.cell(),
    {
        ReadOnlyMutable { id: self.id, marker: PhantomData }
    }
}

impl<A> ReadOnlyMutable<A> {
    pub closed spec fn cell(&self) -> usize {
        self.id
    }

    pub open spec fn valid(&self, s: StoreModel<A>) -> bool {
        self.cell() < s.cells.len()
    }

    /// Whether the handle names a cell of `store`.
    pub fn belongs_to(&self, store: &SignalStore<A>) -> (r: bool)
        ensures
            r == self.valid(store@),
    {
        self.id < store.cell_count()
    }

    pub fn lock_ref<'a>(&self, store: &'a SignalStore<A>) -> (r: MutableLockRef<'a, A>)
        requires
            self.valid(store@),
        ensures
            r.value_spec() == store@.cells[self.cell() as int].value,
    {
        MutableLockRef { lock: store.cell_lock(self.id) }
    }

    /// Registers a notifier on the cell, unless no sender is left to change
    /// it.
    pub(crate) fn push_waker(&self, store: &mut SignalStore<A>, waker: usize)
        requires
            old(store)@.wf(),
            self.valid(old(store)@),
            waker < old(store)@.wakers.len(),
            !old(store)@.is_memo_waker(waker),
            !old(store)@.wakers[waker as int].closed,
        ensures
            final(store)@ == (if old(store)@.cells[self.cell() as int].senders != 0 {
                old(store)@.with_signals(
                    self.cell() as int,
                    old(store)@.cells[self.cell() as int].signals.push(waker),
                )
            } else {
                old(store)@
            }),
            final(store)@.wf(),
            final(store)@.listens(old(store)@, waker),
            old(store)@.cells[self.cell() as int].senders != 0 ==> final(store)@.cells[self.cell() as int].signals.contains(waker),
    {
        proof {
            if store@.cells[self.id as int].senders != 0 {
                lemma_push_signal_wf(store@, self.id, waker);
            }
            crate::model::lemma_listens_refl(store@, waker);
        }
        if store.cell_senders(self.id) != 0 {
            store.cell_push_signal(self.id, waker);
        }
    }

    fn signal_state(&self, store: &mut SignalStore<A>) -> (r: MutableSignalState<A>)
        requires
            old(store)@.wf(),
            self.valid(old(store)@),
        ensures
            r.cell() == self.cell(),
            r.waker() == old(store)@.wakers.len(),
            final(store)@ == old(store)@.with_signal(self.cell() as int),
            final(store)@.wf(),
            final(store)@.extends(old(store)@),
            r.valid(final(store)@),
    {
        let ghost s0 = store@;
        let signal = MutableSignalState::new(store, self.id);
        let ghost s1 = store@;
        self.push_waker(store, signal.waker);
        proof {
            lemma_listens_wf(s1, store@, signal.waker);
            lemma_extends_trans(s0, s1, store@);
        }
        signal
    }

    pub fn signal_ref<B, F: Fn(&A) -> B>(&self, store: &mut SignalStore<A>, f: F) -> (r: MutableSignalRef<A, F>)
        requires
            old(store)@.wf(),
            self.valid(old(store)@),
        ensures
            r.state().cell() == self.cell(),
            r.state().waker() == old(store)@.wakers.len(),
            r.func() == f,
            final(store)@ == old(store)@.with_signal(self.cell() as int),
            final(store)@.wf(),
            final(store)@.extends(old(store)@),
            r.state().valid(final(store)@),
    {
        MutableSignalRef(self.signal_state(store), f)
    }

    pub fn get(&self, store: &SignalStore<A>) -> (r: A)
        where
            A: Copy,
        requires
            self.valid(store@),
        ensures
            r == store@.cells[self.cell() as int].value,
    {
        *store.cell_value(self.id)
    }

    pub fn signal(&self, store: &mut SignalStore<A>) -> (r: MutableSignal<A>)
        where
            A: Copy,
        requires
            old(store)@.wf(),
            self.valid(old(store)@),
        ensures
            r.state().cell() == self.cell(),
            r.state().waker() == old(store)@.wakers.len(),
            final(store)@ == old(store)@.with_signal(self.cell() as int),
            final(store)@.wf(),
            final(store)@.extends(old(store)@),
            r.state().valid(final(store)@),
    {
        MutableSignal(self.signal_state(store))
    }

    pub fn get_cloned(&self, store: &SignalStore<A>) -> (r: A)
        where
            A: Clone,
        requires
            self.valid(store@),
        ensures
            cloned(store@.cells[self.cell() as int].value, r),
    {
        store.cell_value(self.id).clone()
    }

    pub fn signal_cloned(&self, store: &mut SignalStore<A>) -> (r: MutableSignalCloned<A>)
        where
            A: Clone,
        requires
            old(store)@.wf(),
            self.valid(old(store)@),
        ensures
            r.state().cell() == self.cell(),
            r.state().waker() == old(store)@.wakers.len(),
            final(store)@ == old(store)@.with_signal(self.cell() as int),
            final(store)@.wf(),
            final(store)@.extends(old(store)@),
            r.state().valid(final(store)@),
    {
        MutableSignalCloned(self.signal_state(store))
    }
}

/// A handle that can write a mutable. Each handle counts as a sender; when
/// the last one is dropped, the signals of the mutable end.
pub struct Mutable<A>(ReadOnlyMutable<A>);

impl<A> std::ops::Deref for Mutable<A> {
    type Target = ReadOnlyMutable<A>;

    fn deref(&self) -> (r: &ReadOnlyMutable<A>)
        ensures
            r.cell() == self.cell(),
    {
        &self.0
    }
}

impl<A> Mutable<A> {
    pub closed spec fn cell(&self) -> usize {
        self.0.cell()
    }

    /// The handle names a cell that still has a sender (this one).
    pub open spec fn valid(&self, s: StoreModel<A>) -> bool {
        &&& self.cell() < s.cells.len()
        &&& s.cells[self.cell() as int].senders > 0
    }

    pub fn new(store: &mut SignalStore<A>, value: A) -> (r: Self)
        requires
            old(store)@.wf(),
        ensures
            r.cell() == old(store)@.cells.len(),
            final(store)@ == (StoreModel {
                cells: old(store)@.cells.push(CellModel { value, senders: 1, signals: Seq::empty() }),
                ..old(store)@
            }),
            final(store)@.wf(),
            final(store)@.extends(old(store)@),
            r.valid(final(store)@),
    {
        Self::from(store, value)
    }

    /// A mutable holding `value`, with this handle as its only sender.
    pub fn from(store: &mut SignalStore<A>, value: A) -> (r: Self)
        requires
            old(store)@.wf(),
        ensures
            r.cell() == old(store)@.cells.len(),
            final(store)@ == (StoreModel {
                cells: old(store)@.cells.push(CellModel { value, senders: 1, signals: Seq::empty() }),
                ..old(store)@
            }),
            final(store)@.wf(),
            final(store)@.extends(old(store)@),
            r.valid(final(store)@),
    {
        proof {
            lemma_add_cell_wf(store@, value);
        }
        let id = store.add_cell(value);
        Mutable(ReadOnlyMutable { id, marker: PhantomData })
    }

    /// A mutable holding the default value of `A`.
    pub fn default(store: &mut SignalStore<A>) -> (r: Self)
        where
            A: Default,
        requires
            old(store)@.wf(),
        ensures
            r.cell() == old(store)@.cells.len(),
            exists|v: A|
                #[trigger] call_ensures(A::default, (), v) && final(store)@ == (StoreModel {
                    cells: old(store)@.cells.push(CellModel { value: v, senders: 1, signals: Seq::empty() }),
                    ..old(store)@
                }),
            final(store)@.wf(),
            final(store)@.extends(old(store)@),
            r.valid(final(store)@),
    {
        let value = A::default();
        Self::new(store, value)
    }

    fn state(&self) -> (r: usize)
        ensures
            r == self.cell(),
    {
        self.0.id
    }

    pub fn read_only(&self) -> (r: ReadOnlyMutable<A>)
        ensures
            r.cell() == self.cell(),
    {
        self.0.clone()
    }

    /// Stores `value` and hands back the value it replaces.
    pub fn replace(&self, store: &mut SignalStore<A>, value: A) -> (r: A)
        requires
            old(store)@.wf(),
            self.valid(old(store)@),
        ensures
            r == old(store)@.cells[self.cell() as int].value,
            final(store)@ == old(store)@.after_write(self.cell() as int, value),
            final(store)@.wf(),
            final(store)@.extends(old(store)@),
    {
        let c = self.state();
        proof {
            lemma_after_write_wf(store@, c, value);
        }
        let old_value = store.cell_replace(c, value);
        proof {
            assert(store@.cells[c as int].signals == old(store)@.cells[c as int].signals);
            assert(store@.wakers == old(store)@.wakers);
            assert forall|k: int| 0 <= k < store@.cells[c as int].signals.len() implies #[trigger] store@.cells[c as int].signals[k] < store@.wakers.len() by {
                assert(old(store)@.cells[c as int].signals[k] < old(store)@.wakers.len());
            }
        }
        store.cell_notify(c, true, false);
        old_value
    }

    /// Lets `f` see (and change) the current value, stores what it returns,
    /// and hands back the value it replaces, as `f` left it.
    pub fn replace_with<F: FnOnce(&mut A) -> A>(&self, store: &mut SignalStore<A>, f: F) -> (r: A)
        requires
            old(store)@.wf(),
            self.valid(old(store)@),
            forall|x: &mut A| *x == old(store)@.cells[self.cell() as int].value ==> call_requires(f, (x,)),
        ensures
            exists|x: &mut A, v: A|
                {
                    &&& *x == old(store)@.cells[self.cell() as int].value
                    &&& #[trigger] call_ensures(f, (x,), v)
                    &&& r == *final(x)
                    &&& final(store)@ == old(store)@.after_write(self.cell() as int, v)
                },
            final(store)@.wf(),
            final(store)@.extends(old(store)@),
    {
        let c = self.state();
        let ghost raw0 = *store;
        proof {
            store.lemma_value_written_refl(c);
        }
        let current = store.cell_value_mut(c, Ghost(raw0));
        let new_value = f(current);
        proof {
            store.lemma_value_written(raw0, c, *final(current));
            lemma_after_write_wf(raw0@, c, new_value);
        }
        let old_value = store.cell_replace(c, new_value);
        proof {
            assert(store@.cells =~= raw0@.with_value(c as int, new_value).cells);
            assert(store@ == raw0@.with_value(c as int, new_value));
            assert forall|k: int| 0 <= k < store@.cells[c as int].signals.len() implies #[trigger] store@.cells[c as int].signals[k] < store@.wakers.len() by {
                assert(raw0@.cells[c as int].signals[k] < raw0@.wakers.len());
            }
        }
        store.cell_notify(c, true, false);
        old_value
    }

    /// Exchanges the values of two different mutables; both tell their
    /// listeners.
    pub fn swap(&self, store: &mut SignalStore<A>, other: &Mutable<A>)
        requires
            old(store)@.wf(),
            self.valid(old(store)@),
            other.valid(old(store)@),
            self.cell() != other.cell(),
        ensures
            final(store)@ == old(store)@.after_write(
                self.cell() as int,
                old(store)@.cells[other.cell() as int].value,
            ).after_write(other.cell() as int, old(store)@.cells[self.cell() as int].value),
            final(store)@.wf(),
            final(store)@.extends(old(store)@),
    {
        let c1 = self.state();
        let c2 = other.state();
        let ghost s0 = store@;
        let ghost v1 = s0.cells[c1 as int].value;
        let ghost v2 = s0.cells[c2 as int].value;
        let ghost a = s0.after_write(c1 as int, v2);
        proof {
            lemma_after_write_wf(s0, c1, v2);
            lemma_after_write_wf(a, c2, v1);
            lemma_extends_trans(s0, a, a.after_write(c2 as int, v1));
        }
        store.cell_swap(c1, c2);
        proof {
            assert forall|k: int| 0 <= k < store@.cells[c1 as int].signals.len() implies #[trigger] store@.cells[c1 as int].signals[k] < store@.wakers.len() by {
                assert(s0.cells[c1 as int].signals[k] < s0.wakers.len());
            }
        }
        store.cell_notify(c1, true, false);
        proof {
            assert(store@.cells[c2 as int].signals == s0.cells[c2 as int].signals);
            assert forall|k: int| 0 <= k < store@.cells[c2 as int].signals.len() implies #[trigger] store@.cells[c2 as int].signals[k] < store@.wakers.len() by {
                assert(s0.cells[c2 as int].signals[k] < s0.wakers.len());
            }
        }
        store.cell_notify(c2, true, false);
        proof {
            let target = a.after_write(c2 as int, v1);
            assert(store@.cells =~= target.cells);
            assert(store@.wakers =~= target.wakers);
        }
    }

    /// Stores `value` and tells the listeners.
    pub fn set(&self, store: &mut SignalStore<A>, value: A)
        requires
            old(store)@.wf(),
            self.valid(old(store)@),
        ensures
            final(store)@ == old(store)@.after_write(self.cell() as int, value),
            final(store)@.wf(),
            final(store)@.extends(old(store)@),
            forall|w: usize|
                #[trigger] old(store)@.cells[self.cell() as int].signals.contains(w)
                    && old(store)@.wakers[w as int].alive ==> final(store)@.cells[self.cell() as int].signals.contains(w)
                    && final(store)@.wakers[w as int] == woken(old(store)@.wakers[w as int], true, false),
    {
        let c = self.state();
        let ghost s0 = store@;
        proof {
            lemma_after_write_wf(store@, c, value);
            assert forall|w: usize|
                #[trigger] s0.cells[c as int].signals.contains(w) && s0.wakers[w as int].alive implies
                    s0.after_write(c as int, value).cells[c as int].signals.contains(w)
                    && s0.after_write(c as int, value).wakers[w as int] == woken(s0.wakers[w as int], true, false) by {
                let k = choose|k: int| 0 <= k < s0.cells[c as int].signals.len() && s0.cells[c as int].signals[k] == w;
                assert(s0.cells[c as int].signals[k] < s0.wakers.len());
                lemma_notified_listener(s0.with_value(c as int, value), c as int, true, false, w);
            }
        }
        store.cell_set(c, value);
        proof {
            assert forall|k: int| 0 <= k < store@.cells[c as int].signals.len() implies #[trigger] store@.cells[c as int].signals[k] < store@.wakers.len() by {
                assert(old(store)@.cells[c as int].signals[k] < old(store)@.wakers.len());
            }
        }
        store.cell_notify(c, true, false);
    }

    /// Stores `value` (and tells the listeners) only if `f`, given the
    /// current value and `value`, says so.
    pub fn set_if<F: FnOnce(&A, &A) -> bool>(&self, store: &mut SignalStore<A>, value: A, f: F)
        requires
            old(store)@.wf(),
            self.valid(old(store)@),
            call_requires(f, (&old(store)@.cells[self.cell() as int].value, &value)),
        ensures
            exists|b: bool|
                {
                    &&& #[trigger] call_ensures(f, (&old(store)@.cells[self.cell() as int].value, &value), b)
                    &&& final(store)@ == if b {
                        old(store)@.after_write(self.cell() as int, value)
                    } else {
                        old(store)@
                    }
                },
            final(store)@.wf(),
            final(store)@.extends(old(store)@),
    {
        let c = self.state();
        let ghost s0 = store@;
        let b = f(store.cell_value(c), &value);
        if b {
            self.set(store, value);
        }
        proof {
            crate::model::lemma_extends_refl(s0);
            assert(call_ensures(f, (&s0.cells[c as int].value, &value), b));
        }
    }

    /// Takes exclusive access to the value.
    pub fn lock_mut<'a>(&self, store: &'a mut SignalStore<A>) -> (r: MutableLockMut<'a, A>)
        requires
            old(store)@.wf(),
            self.valid(old(store)@),
        ensures
            r.inv(),
            !r.mutated,
            r.cell == self.cell(),
            r.base@ == *old(store),
            *r.store == *old(store),
            *final(r.store) == *final(store),
    {
        let c = self.state();
        let ghost base = *store;
        proof {
            store.lemma_value_written_refl(c);
        }
        MutableLockMut { mutated: false, store, cell: c, base: Ghost(base) }
    }

    /// Stores `value` (and tells the listeners) only if it differs from the
    /// current value.
    pub fn set_neq(&self, store: &mut SignalStore<A>, value: A)
        where
            A: PartialEq,
        requires
            old(store)@.wf(),
            self.valid(old(store)@),
        ensures
            A::obeys_eq_spec() ==> final(store)@ == if old(store)@.cells[self.cell() as int].value.eq_spec(&value) {
                old(store)@
            } else {
                old(store)@.after_write(self.cell() as int, value)
            },
            exists|b: bool|
                {
                    &&& #[trigger] call_ensures(A::ne, (&old(store)@.cells[self.cell() as int].value, &value), b)
                    &&& final(store)@ == if b {
                        old(store)@.after_write(self.cell() as int, value)
                    } else {
                        old(store)@
                    }
                },
            final(store)@.wf(),
            final(store)@.extends(old(store)@),
    {
        self.set_if(store, value, A::ne);
    }

    /// Another sender on the same cell.
    pub fn clone(&self, store: &mut SignalStore<A>) -> (r: Self)
        requires
            old(store)@.wf(),
            self.valid(old(store)@),
            old(store)@.cells[self.cell() as int].senders < usize::MAX,
        ensures
            r.cell() == self.cell(),
            final(store)@ == old(store)@.with_senders(
                self.cell() as int,
                (old(store)@.cells[self.cell() as int].senders + 1) as usize,
            ),
            final(store)@.wf(),
            final(store)@.extends(old(store)@),
    {
        let c = self.state();
        let n = store.cell_senders(c);
        proof {
            lemma_with_senders_wf(store@, c, (n + 1) as usize);
        }
        store.cell_set_senders(c, n + 1);
        Mutable(self.0.clone())
    }

    /// Gives up this sender. When it was the last one, the listeners of the
    /// cell are told that it is closed and forgotten.
    pub fn drop(self, store: &mut SignalStore<A>)
        requires
            old(store)@.wf(),
            self.valid(old(store)@),
        ensures
            final(store)@ == old(store)@.after_drop(self.cell() as int),
            final(store)@.wf(),
            final(store)@.extends(old(store)@),
            old(store)@.cells[self.cell() as int].senders == 1 ==> forall|w: usize|
                #[trigger] old(store)@.cells[self.cell() as int].signals.contains(w)
                    && old(store)@.wakers[w as int].alive ==> final(store)@.wakers[w as int] == woken(
                    old(store)@.wakers[w as int],
                    false,
                    true,
                ),
    {
        let c = self.state();
        let old_senders = store.cell_senders(c);
        let ghost s0 = store@;
        proof {
            lemma_with_senders_wf(s0, c, (old_senders - 1) as usize);
            if old_senders == 1 {
                let s1 = s0.with_senders(c as int, 0);
                assert forall|w: usize|
                    #[trigger] s0.cells[c as int].signals.contains(w) && s0.wakers[w as int].alive implies
                        s0.after_drop(c as int).wakers[w as int] == woken(s0.wakers[w as int], false, true) by {
                    let k = choose|k: int| 0 <= k < s0.cells[c as int].signals.len() && s0.cells[c as int].signals[k] == w;
                    assert(s0.cells[c as int].signals[k] < s0.wakers.len());
                    assert(s1.cells[c as int].signals.len() > 0);
                    lemma_notified_listener(s1, c as int, false, true, w);
                }
            }
        }
        store.cell_set_senders(c, old_senders - 1);
        let ghost s1 = store@;
        if old_senders == 1 {
            proof {
                lemma_after_close_wf(s1, c);
                lemma_extends_trans(s0, s1, s1.after_close(c as int));
                crate::model::lemma_notified_wf(s1, c as int, false, true);
            }
            if store.cell_has_signals(c) {
                store.cell_notify(c, false, true);
                store.cell_clear_signals(c);
            }
        }
    }
}

/// A signal of the value of a mutable.
pub struct MutableSignal<A>(MutableSignalState<A>);

impl<A> MutableSignal<A> {
    pub closed spec fn state(&self) -> MutableSignalState<A> {
        self.0
    }

    pub fn poll_change(&self, store: &mut SignalStore<A>, cx: &std::task::Context) -> (r: Poll<Option<A>>)
        where
            A: Copy,
        requires
            old(store)@.wf(),
            self.state().valid(old(store)@),
        ensures
            final(store)@ == old(store)@.after_poll(self.state().waker() as int, final(store)@.wakers[self.state().waker() as int].task->0),
            final(store)@.wf(),
            final(store)@.extends(old(store)@),
            final(store)@.values() == old(store)@.values(),
            r == old(store)@.poll_result(self.state().waker() as int, self.state().cell() as int),
    {
        let copy = |v: &A| -> (r: A)
            ensures
                r == *v,
            { *v };
        self.0.poll_change(store, context_waker(cx), copy)
    }

    /// The signal goes away: its notifier is dropped from the lists it is on
    /// at the next notification.
    pub fn drop(self, store: &mut SignalStore<A>)
        requires
            old(store)@.wf(),
            self.state().valid(old(store)@),
        ensures
            final(store)@ == old(store)@.with_waker(
                self.state().waker() as int,
                WakerModel { alive: false, ..old(store)@.wakers[self.state().waker() as int] },
            ),
            final(store)@.wf(),
            final(store)@.extends(old(store)@),
    {
        let w = self.0.waker;
        proof {
            lemma_with_waker_wf(store@, w, WakerModel { alive: false, ..store@.wakers[w as int] });
        }
        store.waker_release(w);
    }
}

/// A signal of the value of a mutable, mapped by a function.
pub struct MutableSignalRef<A, F>(MutableSignalState<A>, F);

impl<A, F> MutableSignalRef<A, F> {
    pub closed spec fn state(&self) -> MutableSignalState<A> {
        self.0
    }

    pub closed spec fn func(&self) -> F {
        self.1
    }

    pub fn poll_change<B>(&self, store: &mut SignalStore<A>, cx: &std::task::Context) -> (r: Poll<Option<B>>)
        where
            F: Fn(&A) -> B,
        requires
            old(store)@.wf(),
            self.state().valid(old(store)@),
            call_requires(self.func(), (&old(store)@.cells[self.state().cell() as int].value,)),
        ensures
            final(store)@ == old(store)@.after_poll(self.state().waker() as int, final(store)@.wakers[self.state().waker() as int].task->0),
            final(store)@.wf(),
            final(store)@.extends(old(store)@),
            final(store)@.values() == old(store)@.values(),
            old(store)@.wakers[self.state().waker() as int].changed ==> (r matches Poll::Ready(Some(b))
                && call_ensures(self.func(), (&old(store)@.cells[self.state().cell() as int].value,), b)),
            !old(store)@.wakers[self.state().waker() as int].changed && old(store)@.wakers[self.state().waker() as int].closed
                ==> r matches Poll::Ready(None),
            !old(store)@.wakers[self.state().waker() as int].changed && !old(store)@.wakers[self.state().waker() as int].closed
                ==> (r matches Poll::Pending) && final(store)@.wakers[self.state().waker() as int].task is Some,
    {
        let f = &self.1;
        proof {
            assert(*f == self.func());
        }
        self.0.poll_change(store, context_waker(cx), |v: &A| -> (r: B)
            requires
                call_requires(*f, (v,)),
            ensures
                call_ensures(*f, (v,), r),
            { f(v) })
    }

    pub fn drop(self, store: &mut SignalStore<A>)
        requires
            old(store)@.wf(),
            self.state().valid(old(store)@),
        ensures
            final(store)@ == old(store)@.with_waker(
                self.state().waker() as int,
                WakerModel { alive: false, ..old(store)@.wakers[self.state().waker() as int] },
            ),
            final(store)@.wf(),
            final(store)@.extends(old(store)@),
    {
        let w = self.0.waker;
        proof {
            lemma_with_waker_wf(store@, w, WakerModel { alive: false, ..store@.wakers[w as int] });
        }
        store.waker_release(w);
    }
}

/// A signal of clones of the value of a mutable.
pub struct MutableSignalCloned<A>(MutableSignalState<A>);

impl<A> MutableSignalCloned<A> {
    pub closed spec fn state(&self) -> MutableSignalState<A> {
        self.0
    }

    pub fn poll_change(&self, store: &mut SignalStore<A>, cx: &std::task::Context) -> (r: Poll<Option<A>>)
        where
            A: Clone,
        requires
            old(store)@.wf(),
            self.state().valid(old(store)@),
        ensures
            final(store)@ == old(store)@.after_poll(self.state().waker() as int, final(store)@.wakers[self.state().waker() as int].task->0),
            final(store)@.wf(),
            final(store)@.extends(old(store)@),
            final(store)@.values() == old(store)@.values(),
            old(store)@.wakers[self.state().waker() as int].changed ==> (r matches Poll::Ready(Some(b))
                && cloned(old(store)@.cells[self.state().cell() as int].value, b)),
            !old(store)@.wakers[self.state().waker() as int].changed && old(store)@.wakers[self.state().waker() as int].closed
                ==> r matches Poll::Ready(None),
            !old(store)@.wakers[self.state().waker() as int].changed && !old(store)@.wakers[self.state().waker() as int].closed
                ==> (r matches Poll::Pending) && final(store)@.wakers[self.state().waker() as int].task is Some,
    {
        let clone = |v: &A| -> (r: A)
            ensures
                cloned(*v, r),
            { v.clone() };
        self.0.poll_change(store, context_waker(cx), clone)
    }

    pub fn drop(self, store: &mut SignalStore<A>)
        requires
            old(store)@.wf(),
            self.state().valid(old(store)@),
        ensures
            final(store)@ == old(store)@.with_waker(
                self.state().waker() as int,
                WakerModel { alive: false, ..old(store)@.wakers[self.state().waker() as int] },
            ),
            final(store)@.wf(),
            final(store)@.extends(old(store)@),
    {
        let w = self.0.waker;
        proof {
            lemma_with_waker_wf(store@, w, WakerModel { alive: false, ..store@.wakers[w as int] });
        }
        store.waker_release(w);
    }
}


impl<A: Copy> Signal for MutableSignal<A> {
    type Item = A;

    type Value = A;

    open spec fn valid(&self, s: StoreModel<A>) -> bool {
        self.state().valid(s)
    }

    open spec fn notifier(&self) -> usize {
        self.state().waker()
    }

    open spec fn reports(&self, s: StoreModel<A>, v: A) -> bool {
        v == s.cells[self.state().cell() as int].value
    }

    open spec fn accepts(&self, s: StoreModel<A>) -> bool {
        true
    }

    proof fn lemma_valid_extends(&self, s1: StoreModel<A>, s2: StoreModel<A>) {
        lemma_not_memo_waker_extends(s1, s2, self.state().waker());
    }

    fn poll_change(&self, store: &mut SignalStore<A>, cx: &std::task::Context) -> (r: Poll<Option<A>>) {
        MutableSignal::poll_change(self, store, cx)
    }
}

impl<A, B, F: Fn(&A) -> B> Signal for MutableSignalRef<A, F> {
    type Item = B;

    type Value = A;

    open spec fn valid(&self, s: StoreModel<A>) -> bool {
        self.state().valid(s)
    }

    open spec fn notifier(&self) -> usize {
        self.state().waker()
    }

    open spec fn reports(&self, s: StoreModel<A>, v: B) -> bool {
        call_ensures(self.func(), (&s.cells[self.state().cell() as int].value,), v)
    }

    open spec fn accepts(&self, s: StoreModel<A>) -> bool {
        call_requires(self.func(), (&s.cells[self.state().cell() as int].value,))
    }

    proof fn lemma_valid_extends(&self, s1: StoreModel<A>, s2: StoreModel<A>) {
        lemma_not_memo_waker_extends(s1, s2, self.state().waker());
    }

    fn poll_change(&self, store: &mut SignalStore<A>, cx: &std::task::Context) -> (r: Poll<Option<B>>) {
        MutableSignalRef::poll_change(self, store, cx)
    }
}

impl<A: Clone> Signal for MutableSignalCloned<A> {
    type Item = A;

    type Value = A;

    open spec fn valid(&self, s: StoreModel<A>) -> bool {
        self.state().valid(s)
    }

    open spec fn notifier(&self) -> usize {
        self.state().waker()
    }

    open spec fn reports(&self, s: StoreModel<A>, v: A) -> bool {
        cloned(s.cells[self.state().cell() as int].value, v)
    }

    open spec fn accepts(&self, s: StoreModel<A>) -> bool {
        true
    }

    proof fn lemma_valid_extends(&self, s1: StoreModel<A>, s2: StoreModel<A>) {
        lemma_not_memo_waker_extends(s1, s2, self.state().waker());
    }

    fn poll_change(&self, store: &mut SignalStore<A>, cx: &std::task::Context) -> (r: Poll<Option<A>>) {
        MutableSignalCloned::poll_change(self, store, cx)
    }
}

} // verus!
