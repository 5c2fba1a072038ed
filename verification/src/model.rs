//! The mathematical model of the shared state behind mutables, memos and
//! their signals, and the transitions that the executable code performs on it.
use vstd::prelude::*;

use crate::task::Poll;

verus! {

/// What a change notifier holds: whether a change or the end of the source
/// is pending, the waker of the task waiting to be woken (the one that
/// polled last and found nothing), if any, and whether its owner (a signal
/// or a memo) still exists.
pub struct WakerModel {
    pub changed: bool,
    pub closed: bool,
    pub task: Option<std::task::Waker>,
    pub alive: bool,
}

/// One mutable cell: its value, how many senders (`Mutable` handles) are
/// left, and the notifiers registered on it, in registration order.
pub struct CellModel<A> {
    pub value: A,
    pub senders: usize,
    pub signals: Seq<usize>,
}

/// One memo: its cached value (none before the first computation), its own
/// notifier, the cells it depends on, and the relation between the cells'
/// values and the values its computation may produce.
#[verifier::reject_recursive_types(A)]
pub struct MemoModel<A> {
    pub cache: Option<A>,
    pub waker: usize,
    pub leaves: Set<usize>,
    pub rel: spec_fn(Seq<A>, A) -> bool,
}

/// The whole store: its notifiers, cells and memos, each named by its
/// position.
#[verifier::reject_recursive_types(A)]
pub struct StoreModel<A> {
    pub wakers: Seq<WakerModel>,
    pub cells: Seq<CellModel<A>>,
    pub memos: Seq<MemoModel<A>>,
}

/// A freshly created notifier: a first poll reports the current value.
pub open spec fn fresh_waker() -> WakerModel {
    WakerModel { changed: true, closed: false, task: None, alive: true }
}

/// The notifier after a wake-up: the flags are raised and the waiting task,
/// if any, has been woken and forgotten.
pub open spec fn woken(w: WakerModel, changed: bool, closed: bool) -> WakerModel {
    WakerModel {
        changed: w.changed || changed,
        closed: w.closed || closed,
        task: None,
        alive: w.alive,
    }
}

/// Two sequences of values agree on every cell of `leaves`.
pub open spec fn agree_on<A>(v1: Seq<A>, v2: Seq<A>, leaves: Set<usize>) -> bool {
    forall|c: usize| #[trigger] leaves.contains(c) ==> c < v1.len() && c < v2.len() && v1[c as int] == v2[c as int]
}

impl<A> StoreModel<A> {
    pub open spec fn values(self) -> Seq<A> {
        self.cells.map_values(|c: CellModel<A>| c.value)
    }

    pub open spec fn is_memo_waker(self, w: usize) -> bool {
        exists|j: int| 0 <= j < self.memos.len() && #[trigger] self.memos[j].waker == w
    }

    /// The memo `j` is coherent: while its notifier reports no change, its
    /// cache holds a value that its computation produces from the current
    /// values; it is registered on every cell it depends on that can still
    /// change, and on no other cell; and its relation depends on those cells
    /// alone.
    pub open spec fn memo_wf(self, j: int) -> bool {
        let m = self.memos[j];
        &&& m.waker < self.wakers.len()
        &&& self.wakers[m.waker as int].alive
        &&& (!self.wakers[m.waker as int].changed ==> m.cache is Some && (m.rel)(
            self.values(),
            m.cache->0,
        ))
        &&& forall|c: usize| #[trigger]
            m.leaves.contains(c) ==> c < self.cells.len() && (self.cells[c as int].senders > 0
                ==> self.cells[c as int].signals.contains(m.waker))
        &&& forall|c: int|
            0 <= c < self.cells.len() && #[trigger] self.cells[c].signals.contains(m.waker)
                ==> m.leaves.contains(c as usize)
        &&& forall|v1: Seq<A>, v2: Seq<A>, x: A|
            #![trigger (m.rel)(v1, x), (m.rel)(v2, x)]
            agree_on(v1, v2, m.leaves) ==> (m.rel)(v1, x) == (m.rel)(v2, x)
    }

    /// The invariant of the whole store: it is coherent, and a cell without
    /// senders has no listeners.
    pub open spec fn wf(self) -> bool {
        &&& self.coherent()
        &&& self.quiet()
    }

    /// A cell without senders lists no notifier: nothing can wake them.
    pub open spec fn quiet_at(self, c: int) -> bool {
        self.cells[c].senders == 0 ==> self.cells[c].signals.len() == 0
    }

    pub open spec fn quiet(self) -> bool {
        forall|c: int| 0 <= c < self.cells.len() ==> #[trigger] self.quiet_at(c)
    }

    /// Every list names notifiers of the store, every memo is coherent, and
    /// memos have distinct notifiers.
    pub open spec fn coherent(self) -> bool {
        &&& forall|c: int, k: int|
            0 <= c < self.cells.len() && 0 <= k < self.cells[c].signals.len()
                ==> #[trigger] self.cells[c].signals[k] < self.wakers.len()
        &&& forall|j: int| 0 <= j < self.memos.len() ==> #[trigger] self.memo_wf(j)
        &&& forall|j: int, k: int|
            0 <= j < self.memos.len() && 0 <= k < self.memos.len() && j != k
                ==> #[trigger] self.memos[j].waker != #[trigger] self.memos[k].waker
    }

    /// Notifier `w` has reported the end of its signal and nothing can wake
    /// it again: it is closed, has no pending change, belongs to no memo and
    /// is listed on no cell.
    pub open spec fn ended(self, w: usize) -> bool {
        &&& w < self.wakers.len()
        &&& self.wakers[w as int].closed
        &&& !self.wakers[w as int].changed
        &&& !self.is_memo_waker(w)
        &&& forall|c: int| 0 <= c < self.cells.len() ==> !(#[trigger] self.cells[c].signals.contains(w))
    }

    /// `self` is a later state of `old`: nothing was removed; every memo
    /// kept its notifier, its dependencies and its relation; memos created
    /// since have notifiers created since; a closed notifier stays closed,
    /// an ended one stays ended, and a cell without senders gets none.
    pub open spec fn extends(self, old: Self) -> bool {
        &&& self.cells.len() >= old.cells.len()
        &&& self.wakers.len() >= old.wakers.len()
        &&& self.memos.len() >= old.memos.len()
        &&& forall|j: int|
            0 <= j < old.memos.len() ==> {
                &&& #[trigger] self.memos[j].waker == old.memos[j].waker
                &&& self.memos[j].leaves == old.memos[j].leaves
                &&& self.memos[j].rel == old.memos[j].rel
            }
        &&& forall|j: int|
            old.memos.len() <= j < self.memos.len() ==> #[trigger] self.memos[j].waker
                >= old.wakers.len()
        &&& forall|w: int| 0 <= w < old.wakers.len() && old.wakers[w].closed ==> #[trigger] self.wakers[w].closed
        &&& forall|c: int|
            0 <= c < old.cells.len() && old.cells[c].senders == 0 ==> #[trigger] self.cells[c].senders == 0
        &&& forall|w: usize| #[trigger] old.ended(w) ==> self.ended(w)
    }

    /// The notifiers registered on cell `c` whose owner still exists.
    pub open spec fn live_signals(self, c: int) -> Seq<usize> {
        self.cells[c].signals.filter(|w: usize| self.wakers[w as int].alive)
    }

    /// The store after the notifiers registered on cell `c` were woken with
    /// the given flags; those whose owner is gone are dropped from the list.
    pub open spec fn notified(self, c: int, changed: bool, closed: bool) -> Self {
        let sigs = self.cells[c].signals;
        StoreModel {
            wakers: self.wakers.map(
                |w: int, m: WakerModel|
                    if sigs.contains(w as usize) && m.alive {
                        woken(m, changed, closed)
                    } else {
                        m
                    },
            ),
            cells: self.cells.update(
                c,
                CellModel { signals: self.live_signals(c), ..self.cells[c] },
            ),
            memos: self.memos,
        }
    }

    pub open spec fn with_value(self, c: int, v: A) -> Self {
        StoreModel { cells: self.cells.update(c, CellModel { value: v, ..self.cells[c] }), ..self }
    }

    /// The store after a value was written into cell `c` and its listeners
    /// were told of the change.
    pub open spec fn after_write(self, c: int, v: A) -> Self {
        self.with_value(c, v).notified(c, true, false)
    }

    pub open spec fn with_waker(self, w: int, m: WakerModel) -> Self {
        StoreModel { wakers: self.wakers.update(w, m), ..self }
    }

    pub open spec fn with_senders(self, c: int, n: usize) -> Self {
        StoreModel { cells: self.cells.update(c, CellModel { senders: n, ..self.cells[c] }), ..self }
    }

    pub open spec fn with_signals(self, c: int, sigs: Seq<usize>) -> Self {
        StoreModel { cells: self.cells.update(c, CellModel { signals: sigs, ..self.cells[c] }), ..self }
    }

    pub open spec fn with_cache(self, j: int, v: A) -> Self {
        StoreModel { memos: self.memos.update(j, MemoModel { cache: Some(v), ..self.memos[j] }), ..self }
    }

    /// The store after a new notifier was made for a signal of cell `c` and
    /// registered on the cell, if a sender of the cell is left.
    pub open spec fn with_signal(self, c: int) -> Self {
        let w = self.wakers.len() as usize;
        let t = StoreModel { wakers: self.wakers.push(fresh_waker()), ..self };
        if self.cells[c].senders != 0 {
            t.with_signals(c, self.cells[c].signals.push(w))
        } else {
            t
        }
    }

    /// The store after the signal of notifier `w` was polled: a pending
    /// change is consumed; with none pending and the source still open, the
    /// polling task's waker `task` replaces the one registered before.
    pub open spec fn after_poll(self, w: int, task: std::task::Waker) -> Self {
        if self.wakers[w].changed {
            self.with_waker(w, WakerModel { changed: false, ..self.wakers[w] })
        } else if self.wakers[w].closed {
            self
        } else {
            self.after_waiting(w, task)
        }
    }

    /// The store after the task whose waker is `task` was registered on
    /// notifier `w`, in place of the one registered before.
    pub open spec fn after_waiting(self, w: int, task: std::task::Waker) -> Self {
        self.with_waker(w, WakerModel { task: Some(task), ..self.wakers[w] })
    }

    /// What polling the signal of notifier `w` on cell `c` reports.
    pub open spec fn poll_result(self, w: int, c: int) -> Poll<Option<A>> {
        if self.wakers[w].changed {
            Poll::Ready(Some(self.cells[c].value))
        } else if self.wakers[w].closed {
            Poll::Ready(None)
        } else {
            Poll::Pending
        }
    }

    /// The store after a sender of cell `c` went away.
    pub open spec fn after_drop(self, c: int) -> Self {
        let t = self.with_senders(c, (self.cells[c].senders - 1) as usize);
        if self.cells[c].senders == 1 {
            t.after_close(c)
        } else {
            t
        }
    }

    /// `self` differs from `old` only in the caches of memos and in whether
    /// the notifiers of memos report a change: what a memo's read leaves
    /// behind.
    pub open spec fn refreshed_from(self, old: Self) -> bool {
        &&& self.cells == old.cells
        &&& self.wakers.len() == old.wakers.len()
        &&& forall|w: int|
            0 <= w < old.wakers.len() ==> #[trigger] self.wakers[w] == (if old.is_memo_waker(
                w as usize,
            ) {
                WakerModel { changed: self.wakers[w].changed, ..old.wakers[w] }
            } else {
                old.wakers[w]
            })
        &&& self.memos.len() == old.memos.len()
        &&& forall|j: int|
            0 <= j < old.memos.len() ==> {
                &&& #[trigger] self.memos[j].waker == old.memos[j].waker
                &&& self.memos[j].leaves == old.memos[j].leaves
                &&& self.memos[j].rel == old.memos[j].rel
            }
    }

    /// `self` is `old` where notifier `w` was added to the lists of some
    /// cells, and nothing else changed.
    pub open spec fn listens(self, old: Self, w: usize) -> bool {
        &&& self.wakers == old.wakers
        &&& self.memos == old.memos
        &&& self.cells_listen(old, w)
    }

    /// The cells of `self` are those of `old` where notifier `w` was added
    /// to the lists of some of them: values, senders and the other entries
    /// are kept.
    pub open spec fn cells_listen(self, old: Self, w: usize) -> bool {
        &&& self.cells.len() == old.cells.len()
        &&& forall|c: int|
            #![trigger self.cells[c]]
            0 <= c < old.cells.len() ==> {
                &&& self.cells[c].value == old.cells[c].value
                &&& self.cells[c].senders == old.cells[c].senders
                &&& old.cells[c].senders == 0 ==> self.cells[c].signals == old.cells[c].signals
                &&& forall|x: usize| #[trigger]
                    old.cells[c].signals.contains(x) ==> self.cells[c].signals.contains(x)
                &&& forall|k: int|
                    0 <= k < self.cells[c].signals.len() ==> #[trigger] self.cells[c].signals[k]
                        == w || old.cells[c].signals.contains(self.cells[c].signals[k])
            }
    }

    /// The lists of the cells outside `leaves` are those of `old`.
    pub open spec fn unchanged_outside(self, old: Self, leaves: Set<usize>) -> bool {
        forall|c: int|
            0 <= c < old.cells.len() && !leaves.contains(c as usize) ==> #[trigger] self.cells[c].signals
                == old.cells[c].signals
    }

    /// The store after the last sender of cell `c` went away: a cell with
    /// listeners wakes them as closed and forgets them.
    pub open spec fn after_close(self, c: int) -> Self {
        if self.cells[c].signals.len() > 0 {
            self.notified(c, false, true).with_signals(c, Seq::empty())
        } else {
            self
        }
    }
}


/// Waking the listeners of a cell keeps the store coherent: values do not
/// move, flags only rise, and the notifiers of memos, which never go away,
/// stay on the list.
pub proof fn lemma_notified_wf<A>(s: StoreModel<A>, c: int, changed: bool, closed: bool)
    requires
        s.coherent(),
        0 <= c < s.cells.len(),
    ensures
        s.notified(c, changed, closed).coherent(),
        s.wf() ==> s.notified(c, changed, closed).wf(),
        forall|d: int| 0 <= d < s.cells.len() && d != c && #[trigger] s.quiet_at(d)
            ==> s.notified(c, changed, closed).quiet_at(d),
        s.notified(c, changed, closed).extends(s),
        s.notified(c, changed, closed).values() == s.values(),
{
    let n = s.notified(c, changed, closed);
    let sigs = s.cells[c].signals;
    let p = |w: usize| s.wakers[w as int].alive;
    assert(n.values() =~= s.values());
    lemma_filter_ids_bounded(s, c);
    assert(s.live_signals(c) == sigs.filter(p));
    sigs.lemma_filter_len(p);
    assert forall|d: int| 0 <= d < s.cells.len() && #[trigger] s.quiet_at(d) implies n.quiet_at(d) by {
        if d != c {
            assert(n.cells[d] == s.cells[d]);
        }
    }
    if s.wf() {
        assert forall|d: int| 0 <= d < n.cells.len() implies #[trigger] n.quiet_at(d) by {
            assert(s.quiet_at(d));
        }
    }
    assert forall|w: usize| #[trigger] s.ended(w) implies n.ended(w) by {
        assert(!sigs.contains(w as usize));
        assert forall|c2: int| 0 <= c2 < n.cells.len() implies !(#[trigger] n.cells[c2].signals.contains(w as usize)) by {
            if c2 == c {
                assert(s.live_signals(c) == sigs.filter(p));
                if n.cells[c].signals.contains(w as usize) {
                    sigs.lemma_filter_contains_rev(p, w as usize);
                }
            } else {
                assert(!s.cells[c2].signals.contains(w as usize));
            }
        }
    }
    assert forall|j: int| 0 <= j < n.memos.len() implies #[trigger] n.memo_wf(j) by {
        assert(s.memo_wf(j));
        let m = s.memos[j];
        assert forall|cc: usize| #[trigger]
            m.leaves.contains(cc) implies cc < n.cells.len() && (n.cells[cc as int].senders > 0
            ==> n.cells[cc as int].signals.contains(m.waker)) by {
            if cc == c && s.cells[c].senders > 0 {
                assert(sigs.contains(m.waker));
                let kk = choose|kk: int| 0 <= kk < sigs.len() && sigs[kk] == m.waker;
                sigs.lemma_filter_contains(p, kk);
            }
        }
        assert(s.live_signals(c) == sigs.filter(p));
        assert forall|c2: int|
            0 <= c2 < n.cells.len() && #[trigger] n.cells[c2].signals.contains(m.waker)
                implies m.leaves.contains(c2 as usize) by {
            if c2 == c {
                sigs.lemma_filter_contains_rev(p, m.waker);
            }
            assert(s.cells[c2].signals.contains(m.waker));
        }
    }
}

/// Two stores with the same cells are quiet alike.
pub proof fn lemma_quiet_same_cells<A>(s: StoreModel<A>, n: StoreModel<A>)
    requires
        s.quiet(),
        n.cells == s.cells,
    ensures
        n.quiet(),
{
    assert forall|d: int| 0 <= d < n.cells.len() implies #[trigger] n.quiet_at(d) by {
        assert(s.quiet_at(d));
    }
}

/// The list left after dropping dead notifiers still names notifiers only.
/// Waking the listeners of a cell wakes every live one with the given flags
/// and keeps it on the list.
pub proof fn lemma_notified_listener<A>(s: StoreModel<A>, c: int, changed: bool, closed: bool, w: usize)
    requires
        0 <= c < s.cells.len(),
        w < s.wakers.len(),
        s.cells[c].signals.contains(w),
        s.wakers[w as int].alive,
    ensures
        s.notified(c, changed, closed).cells[c].signals.contains(w),
        s.notified(c, changed, closed).wakers[w as int] == woken(s.wakers[w as int], changed, closed),
{
    let p = |x: usize| s.wakers[x as int].alive;
    assert(s.live_signals(c) == s.cells[c].signals.filter(p));
    s.cells[c].signals.lemma_filter_contains_rev(p, w);
}

proof fn lemma_filter_ids_bounded<A>(s: StoreModel<A>, c: int)
    requires
        s.coherent(),
        0 <= c < s.cells.len(),
    ensures
        forall|k: int|
            0 <= k < s.live_signals(c).len() ==> #[trigger] s.live_signals(c)[k] < s.wakers.len(),
{
    let sigs = s.cells[c].signals;
    let p = |w: usize| s.wakers[w as int].alive;
    assert(s.live_signals(c) == sigs.filter(p));
    assert forall|k: int| 0 <= k < s.live_signals(c).len() implies #[trigger] s.live_signals(c)[k]
        < s.wakers.len() by {
        let x = sigs.filter(p)[k];
        assert(sigs.filter(p).contains(x));
        sigs.lemma_filter_contains_rev(p, x);
        let kk = choose|kk: int| 0 <= kk < sigs.len() && sigs[kk] == x;
        assert(s.cells[c].signals[kk] < s.wakers.len());
    }
}

/// Writing a cell that still has a sender and waking its listeners keeps the
/// store coherent: every memo that depends on the cell is listening and now
/// reports a change; every other memo's relation ignores the cell.
pub proof fn lemma_after_write_wf<A>(s: StoreModel<A>, c: usize, v: A)
    requires
        s.wf(),
        c < s.cells.len(),
        s.cells[c as int].senders > 0,
    ensures
        s.after_write(c as int, v).wf(),
        s.after_write(c as int, v).extends(s),
        s.after_write(c as int, v).values() == s.values().update(c as int, v),
        s.after_write(c as int, v).cells[c as int].signals == s.live_signals(c as int),
{
    let t = s.with_value(c as int, v);
    let n = t.notified(c as int, true, false);
    let sigs = s.cells[c as int].signals;
    let p = |w: usize| s.wakers[w as int].alive;
    assert(t.cells[c as int].signals == sigs);
    assert forall|d: int| 0 <= d < n.cells.len() implies #[trigger] n.quiet_at(d) by {
        if d != c {
            assert(s.quiet_at(d));
        }
    }
    assert(t.wakers == s.wakers);
    assert(n.values() =~= s.values().update(c as int, v));
    assert(t.live_signals(c as int) =~= s.live_signals(c as int));
    assert(n.cells[c as int].signals == s.live_signals(c as int));
    lemma_filter_ids_bounded(s, c as int);
    assert forall|w: usize| #[trigger] s.ended(w) implies n.ended(w) by {
        assert(!sigs.contains(w as usize));
        assert forall|c2: int| 0 <= c2 < n.cells.len() implies !(#[trigger] n.cells[c2].signals.contains(w as usize)) by {
            if c2 == c as int {
                assert(s.live_signals(c as int) == sigs.filter(p));
                if n.cells[c2].signals.contains(w as usize) {
                    sigs.lemma_filter_contains_rev(p, w as usize);
                }
            } else {
                assert(!s.cells[c2].signals.contains(w as usize));
            }
        }
    }
    assert forall|c2: int, k: int|
        0 <= c2 < n.cells.len() && 0 <= k < n.cells[c2].signals.len()
            implies #[trigger] n.cells[c2].signals[k] < n.wakers.len() by {
        if c2 != c as int {
            assert(s.cells[c2].signals[k] < s.wakers.len());
        }
    }
    assert forall|j: int| 0 <= j < n.memos.len() implies #[trigger] n.memo_wf(j) by {
        assert(s.memo_wf(j));
        let m = s.memos[j];
        let mw = m.waker;
        assert forall|cc: usize| #[trigger]
            m.leaves.contains(cc) implies cc < n.cells.len() && (n.cells[cc as int].senders > 0
            ==> n.cells[cc as int].signals.contains(mw)) by {
            if cc == c {
                assert(sigs.contains(mw));
                let kk = choose|kk: int| 0 <= kk < sigs.len() && sigs[kk] == mw;
                sigs.lemma_filter_contains(p, kk);
            }
        }
        assert(s.live_signals(c as int) == sigs.filter(p));
        assert forall|c2: int|
            0 <= c2 < n.cells.len() && #[trigger] n.cells[c2].signals.contains(mw)
                implies m.leaves.contains(c2 as usize) by {
            if c2 == c as int {
                sigs.lemma_filter_contains_rev(p, mw);
            }
            assert(s.cells[c2].signals.contains(mw));
        }
        if !n.wakers[mw as int].changed {
            assert(!s.wakers[mw as int].changed);
            if m.leaves.contains(c) {
                assert(sigs.contains(mw));
                assert(n.wakers[mw as int] == woken(s.wakers[mw as int], true, false));
            }
            assert(agree_on(s.values(), n.values(), m.leaves));
            assert((m.rel)(s.values(), m.cache->0));
            assert((m.rel)(s.values(), m.cache->0) == (m.rel)(n.values(), m.cache->0));
        }
    }
}


pub proof fn lemma_extends_refl<A>(s: StoreModel<A>)
    ensures
        s.extends(s),
{
}

pub proof fn lemma_extends_trans<A>(s1: StoreModel<A>, s2: StoreModel<A>, s3: StoreModel<A>)
    requires
        s2.extends(s1),
        s3.extends(s2),
    ensures
        s3.extends(s1),
{
    assert forall|j: int| s1.memos.len() <= j < s3.memos.len() implies #[trigger] s3.memos[j].waker
        >= s1.wakers.len() by {
        if j < s2.memos.len() {
            assert(s3.memos[j].waker == s2.memos[j].waker);
        }
    }
}

pub proof fn lemma_refreshed_extends<A>(s1: StoreModel<A>, s2: StoreModel<A>)
    requires
        s2.refreshed_from(s1),
    ensures
        s2.extends(s1),
        s2.values() == s1.values(),
{
    assert(s2.values() =~= s1.values());
    assert forall|c: int| 0 <= c < s1.cells.len() && s1.cells[c].senders == 0 implies #[trigger] s2.cells[c].senders == 0 by {
        assert(s2.cells[c].value == s1.cells[c].value);
    }
    assert forall|x: usize| #[trigger] s1.ended(x) implies s2.ended(x) by {
        if s2.is_memo_waker(x) {
            let j = choose|j: int| 0 <= j < s2.memos.len() && #[trigger] s2.memos[j].waker == x;
            assert(s1.memos[j].waker == x);
        }
    }
}

pub proof fn lemma_refreshed_refl<A>(s: StoreModel<A>)
    ensures
        s.refreshed_from(s),
{
}

pub proof fn lemma_refreshed_trans<A>(s1: StoreModel<A>, s2: StoreModel<A>, s3: StoreModel<A>)
    requires
        s2.refreshed_from(s1),
        s3.refreshed_from(s2),
    ensures
        s3.refreshed_from(s1),
{
    assert forall|w: usize| s1.is_memo_waker(w) <==> s2.is_memo_waker(w) by {
        if s1.is_memo_waker(w) {
            let j = choose|j: int| 0 <= j < s1.memos.len() && #[trigger] s1.memos[j].waker == w;
            assert(s2.memos[j].waker == w);
        }
        if s2.is_memo_waker(w) {
            let j = choose|j: int| 0 <= j < s2.memos.len() && #[trigger] s2.memos[j].waker == w;
            assert(s1.memos[j].waker == w);
        }
    }
    assert forall|w: int| 0 <= w < s1.wakers.len() implies #[trigger] s3.wakers[w] == (
    if s1.is_memo_waker(w as usize) {
        WakerModel { changed: s3.wakers[w].changed, ..s1.wakers[w] }
    } else {
        s1.wakers[w]
    }) by {
        assert(s2.wakers[w] == (if s1.is_memo_waker(w as usize) {
            WakerModel { changed: s2.wakers[w].changed, ..s1.wakers[w] }
        } else {
            s1.wakers[w]
        }));
        assert(s3.wakers[w] == (if s2.is_memo_waker(w as usize) {
            WakerModel { changed: s3.wakers[w].changed, ..s2.wakers[w] }
        } else {
            s2.wakers[w]
        }));
    }
}

/// A new notifier belongs to no memo and keeps the store coherent.
pub proof fn lemma_new_waker_wf<A>(s: StoreModel<A>, w: usize)
    requires
        s.wf(),
        w == s.wakers.len(),
    ensures
        (StoreModel { wakers: s.wakers.push(fresh_waker()), ..s }).wf(),
        (StoreModel { wakers: s.wakers.push(fresh_waker()), ..s }).extends(s),
        !s.is_memo_waker(w),
{
    let n = StoreModel { wakers: s.wakers.push(fresh_waker()), ..s };
    assert(n.values() =~= s.values());
    lemma_quiet_same_cells(s, n);
    assert forall|j: int| 0 <= j < n.memos.len() implies #[trigger] n.memo_wf(j) by {
        assert(s.memo_wf(j));
    }
    if s.is_memo_waker(w) {
        let j = choose|j: int| 0 <= j < s.memos.len() && #[trigger] s.memos[j].waker == w;
        assert(s.memo_wf(j));
    }
}

/// Adding a notifier to the list of a cell keeps the store coherent.
pub proof fn lemma_push_signal_wf<A>(s: StoreModel<A>, c: usize, w: usize)
    requires
        s.wf(),
        c < s.cells.len(),
        s.cells[c as int].senders > 0,
        w < s.wakers.len(),
        !s.is_memo_waker(w),
        !s.wakers[w as int].closed,
    ensures
        s.with_signals(c as int, s.cells[c as int].signals.push(w)).wf(),
        s.with_signals(c as int, s.cells[c as int].signals.push(w)).listens(s, w),
        s.with_signals(c as int, s.cells[c as int].signals.push(w)).cells[c as int].signals.contains(w),
{
    let sigs = s.cells[c as int].signals.push(w);
    let n = s.with_signals(c as int, sigs);
    assert(n.values() =~= s.values());
    assert forall|d: int| 0 <= d < n.cells.len() implies #[trigger] n.quiet_at(d) by {
        if d != c {
            assert(s.quiet_at(d));
        }
    }
    assert(sigs[sigs.len() - 1] == w);
    assert forall|c2: int, k: int|
        0 <= c2 < n.cells.len() && 0 <= k < n.cells[c2].signals.len()
            implies #[trigger] n.cells[c2].signals[k] < n.wakers.len() by {
        if c2 == c as int && k < s.cells[c2].signals.len() {
            assert(n.cells[c2].signals[k] == s.cells[c2].signals[k]);
        }
    }
    assert forall|j: int| 0 <= j < n.memos.len() implies #[trigger] n.memo_wf(j) by {
        assert(s.memo_wf(j));
        let m = s.memos[j];
        assert forall|cc: usize| #[trigger]
            m.leaves.contains(cc) implies cc < n.cells.len() && (n.cells[cc as int].senders > 0
            ==> n.cells[cc as int].signals.contains(m.waker)) by {
            if cc == c && s.cells[c as int].senders > 0 {
                let kk = choose|kk: int| 0 <= kk < s.cells[c as int].signals.len() && s.cells[c as int].signals[kk] == m.waker;
                assert(sigs[kk] == m.waker);
            }
        }
        assert(m.waker != w);
        assert forall|c2: int|
            0 <= c2 < n.cells.len() && #[trigger] n.cells[c2].signals.contains(m.waker)
                implies m.leaves.contains(c2 as usize) by {
            if c2 == c as int {
                let kk = choose|kk: int| 0 <= kk < sigs.len() && sigs[kk] == m.waker;
                assert(s.cells[c2].signals[kk] == m.waker);
            }
            assert(s.cells[c2].signals.contains(m.waker));
        }
    }
    assert forall|c2: int| 0 <= c2 < s.cells.len() implies {
        &&& #[trigger] n.cells[c2].value == s.cells[c2].value
        &&& n.cells[c2].senders == s.cells[c2].senders
        &&& forall|x: usize| #[trigger]
            s.cells[c2].signals.contains(x) ==> n.cells[c2].signals.contains(x)
        &&& forall|k: int|
            0 <= k < n.cells[c2].signals.len() ==> #[trigger] n.cells[c2].signals[k] == w
                || s.cells[c2].signals.contains(n.cells[c2].signals[k])
    } by {
        if c2 == c as int {
            assert forall|x: usize| #[trigger] s.cells[c2].signals.contains(x) implies n.cells[c2].signals.contains(x) by {
                let kk = choose|kk: int| 0 <= kk < s.cells[c2].signals.len() && s.cells[c2].signals[kk] == x;
                assert(sigs[kk] == x);
            }
            assert forall|k: int| 0 <= k < n.cells[c2].signals.len() implies #[trigger] n.cells[c2].signals[k] == w
                || s.cells[c2].signals.contains(n.cells[c2].signals[k]) by {
                if k < s.cells[c2].signals.len() {
                    assert(s.cells[c2].signals[k] == n.cells[c2].signals[k]);
                }
            }
        }
    }
}

/// A store that only gained listeners is still coherent.
pub proof fn lemma_listens_wf<A>(s1: StoreModel<A>, s2: StoreModel<A>, w: usize)
    requires
        s1.wf(),
        s2.listens(s1, w),
        w < s1.wakers.len(),
        !s1.is_memo_waker(w),
        !s1.wakers[w as int].closed,
    ensures
        s2.wf(),
        s2.extends(s1),
        s2.values() == s1.values(),
{
    assert(s2.values() =~= s1.values());
    assert forall|d: int| 0 <= d < s2.cells.len() implies #[trigger] s2.quiet_at(d) by {
        assert(s1.quiet_at(d));
        assert(s2.cells[d].value == s1.cells[d].value);
    }
    assert forall|c: int| 0 <= c < s1.cells.len() && s1.cells[c].senders == 0 implies #[trigger] s2.cells[c].senders == 0 by {
        assert(s2.cells[c].value == s1.cells[c].value);
    }
    assert forall|x: usize| #[trigger] s1.ended(x) implies s2.ended(x) by {
        assert(x != w);
        assert forall|c: int| 0 <= c < s2.cells.len() implies !(#[trigger] s2.cells[c].signals.contains(x)) by {
            assert(s2.cells[c].value == s1.cells[c].value);
            if s2.cells[c].signals.contains(x) {
                let k = choose|k: int| 0 <= k < s2.cells[c].signals.len() && s2.cells[c].signals[k] == x;
                assert(s2.cells[c].signals[k] == w || s1.cells[c].signals.contains(s2.cells[c].signals[k]));
            }
        }
    }
    assert forall|c: int, k: int|
        0 <= c < s2.cells.len() && 0 <= k < s2.cells[c].signals.len()
            implies #[trigger] s2.cells[c].signals[k] < s2.wakers.len() by {
        assert(s2.cells[c].value == s1.cells[c].value);
        if s2.cells[c].signals[k] != w {
            let x = s2.cells[c].signals[k];
            assert(s1.cells[c].signals.contains(x));
            let kk = choose|kk: int| 0 <= kk < s1.cells[c].signals.len() && s1.cells[c].signals[kk] == x;
            assert(s1.cells[c].signals[kk] < s1.wakers.len());
        }
    }
    assert forall|j: int| 0 <= j < s2.memos.len() implies #[trigger] s2.memo_wf(j) by {
        assert(s1.memo_wf(j));
        let m = s1.memos[j];
        assert forall|cc: usize| #[trigger]
            m.leaves.contains(cc) implies cc < s2.cells.len() && (s2.cells[cc as int].senders > 0
            ==> s2.cells[cc as int].signals.contains(m.waker)) by {
            assert(s2.cells[cc as int].value == s1.cells[cc as int].value);
        }
        assert(m.waker != w);
        assert forall|c2: int|
            0 <= c2 < s2.cells.len() && #[trigger] s2.cells[c2].signals.contains(m.waker)
                implies m.leaves.contains(c2 as usize) by {
            assert(s2.cells[c2].value == s1.cells[c2].value);
            let kk = choose|kk: int| 0 <= kk < s2.cells[c2].signals.len() && s2.cells[c2].signals[kk] == m.waker;
            assert(s2.cells[c2].signals[kk] == w || s1.cells[c2].signals.contains(s2.cells[c2].signals[kk]));
        }
    }
}

pub proof fn lemma_listens_trans<A>(s1: StoreModel<A>, s2: StoreModel<A>, s3: StoreModel<A>, w: usize)
    requires
        s2.listens(s1, w),
        s3.listens(s2, w),
    ensures
        s3.listens(s1, w),
{
    assert forall|c: int| 0 <= c < s1.cells.len() implies {
        &&& #[trigger] s3.cells[c].value == s1.cells[c].value
        &&& s3.cells[c].senders == s1.cells[c].senders
        &&& forall|x: usize| #[trigger]
            s1.cells[c].signals.contains(x) ==> s3.cells[c].signals.contains(x)
        &&& forall|k: int|
            0 <= k < s3.cells[c].signals.len() ==> #[trigger] s3.cells[c].signals[k] == w
                || s1.cells[c].signals.contains(s3.cells[c].signals[k])
    } by {
        assert(s2.cells[c].value == s1.cells[c].value);
        assert(s3.cells[c].value == s2.cells[c].value);
        assert forall|k: int| 0 <= k < s3.cells[c].signals.len() implies #[trigger] s3.cells[c].signals[k] == w
            || s1.cells[c].signals.contains(s3.cells[c].signals[k]) by {
            let x = s3.cells[c].signals[k];
            if x != w {
                assert(s2.cells[c].signals.contains(x));
                let kk = choose|kk: int| 0 <= kk < s2.cells[c].signals.len() && s2.cells[c].signals[kk] == x;
                assert(s2.cells[c].signals[kk] == w || s1.cells[c].signals.contains(s2.cells[c].signals[kk]));
            }
        }
    }
}

pub proof fn lemma_listens_refl<A>(s: StoreModel<A>, w: usize)
    ensures
        s.listens(s, w),
{
    assert forall|c: int| 0 <= c < s.cells.len() implies {
        &&& #[trigger] s.cells[c].value == s.cells[c].value
        &&& s.cells[c].senders == s.cells[c].senders
        &&& forall|x: usize| #[trigger]
            s.cells[c].signals.contains(x) ==> s.cells[c].signals.contains(x)
        &&& forall|k: int|
            0 <= k < s.cells[c].signals.len() ==> #[trigger] s.cells[c].signals[k] == w
                || s.cells[c].signals.contains(s.cells[c].signals[k])
    } by {
        assert forall|k: int| 0 <= k < s.cells[c].signals.len() implies #[trigger] s.cells[c].signals[k] == w
            || s.cells[c].signals.contains(s.cells[c].signals[k]) by {
            assert(s.cells[c].signals[k] == s.cells[c].signals[k]);
        }
    }
}


/// A new cell is no leaf of any memo yet, and keeps the store coherent.
pub proof fn lemma_add_cell_wf<A>(s: StoreModel<A>, v: A)
    requires
        s.wf(),
    ensures
        (StoreModel { cells: s.cells.push(CellModel { value: v, senders: 1, signals: Seq::empty() }), ..s }).wf(),
        (StoreModel { cells: s.cells.push(CellModel { value: v, senders: 1, signals: Seq::empty() }), ..s }).extends(s),
{
    let n = StoreModel { cells: s.cells.push(CellModel { value: v, senders: 1, signals: Seq::empty() }), ..s };
    assert(n.values() =~= s.values().push(v));
    assert forall|d: int| 0 <= d < n.cells.len() implies #[trigger] n.quiet_at(d) by {
        if d < s.cells.len() {
            assert(s.quiet_at(d));
        }
    }
    assert forall|c2: int, k: int|
        0 <= c2 < n.cells.len() && 0 <= k < n.cells[c2].signals.len()
            implies #[trigger] n.cells[c2].signals[k] < n.wakers.len() by {
        assert(c2 < s.cells.len());
        assert(s.cells[c2].signals[k] < s.wakers.len());
    }
    assert forall|j: int| 0 <= j < n.memos.len() implies #[trigger] n.memo_wf(j) by {
        assert(s.memo_wf(j));
        let m = s.memos[j];
        assert forall|cc: usize| #[trigger]
            m.leaves.contains(cc) implies cc < n.cells.len() && (n.cells[cc as int].senders > 0
            ==> n.cells[cc as int].signals.contains(m.waker)) by {
            assert(cc < s.cells.len());
        }
        if !n.wakers[m.waker as int].changed {
            assert(agree_on(s.values(), n.values(), m.leaves));
            assert((m.rel)(s.values(), m.cache->0) == (m.rel)(n.values(), m.cache->0));
        }
    }
}

/// Changing a notifier that belongs to no memo keeps the store coherent.
pub proof fn lemma_with_waker_wf<A>(s: StoreModel<A>, w: usize, m: WakerModel)
    requires
        s.wf(),
        w < s.wakers.len(),
        !s.is_memo_waker(w),
        s.wakers[w as int].closed ==> m.closed,
        s.ended(w) ==> !m.changed,
    ensures
        s.with_waker(w as int, m).wf(),
        s.with_waker(w as int, m).extends(s),
        s.with_waker(w as int, m).values() == s.values(),
{
    let n = s.with_waker(w as int, m);
    assert(n.values() =~= s.values());
    lemma_quiet_same_cells(s, n);
    assert forall|j: int| 0 <= j < n.memos.len() implies #[trigger] n.memo_wf(j) by {
        assert(s.memo_wf(j));
        assert(s.memos[j].waker != w);
    }
}

/// The number of senders of a cell that still has one may change: once it
/// reaches zero, the cell can no longer change.
pub proof fn lemma_with_senders_wf<A>(s: StoreModel<A>, c: usize, n: usize)
    requires
        s.wf(),
        c < s.cells.len(),
        s.cells[c as int].senders > 0,
    ensures
        s.with_senders(c as int, n).coherent(),
        n > 0 ==> s.with_senders(c as int, n).wf(),
        forall|d: int| 0 <= d < s.cells.len() && d != c ==> #[trigger] s.with_senders(c as int, n).quiet_at(d),
        s.with_senders(c as int, n).extends(s),
        s.with_senders(c as int, n).values() == s.values(),
{
    let t = s.with_senders(c as int, n);
    assert(t.values() =~= s.values());
    assert forall|d: int| 0 <= d < s.cells.len() && d != c implies #[trigger] t.quiet_at(d) by {
        assert(s.quiet_at(d));
    }
    if n > 0 {
        assert forall|d: int| 0 <= d < t.cells.len() implies #[trigger] t.quiet_at(d) by {
            assert(s.quiet_at(d));
        }
    }
    assert forall|c2: int, k: int|
        0 <= c2 < t.cells.len() && 0 <= k < t.cells[c2].signals.len()
            implies #[trigger] t.cells[c2].signals[k] < t.wakers.len() by {
        assert(s.cells[c2].signals[k] < s.wakers.len());
    }
    assert forall|j: int| 0 <= j < t.memos.len() implies #[trigger] t.memo_wf(j) by {
        assert(s.memo_wf(j));
        let m = s.memos[j];
        assert forall|cc: usize| #[trigger]
            m.leaves.contains(cc) implies cc < t.cells.len() && (t.cells[cc as int].senders > 0
            ==> t.cells[cc as int].signals.contains(m.waker)) by {
            assert(cc < s.cells.len());
        }
    }
}

/// Closing a cell without senders keeps the store coherent.
pub proof fn lemma_after_close_wf<A>(s: StoreModel<A>, c: usize)
    requires
        s.coherent(),
        c < s.cells.len(),
        s.cells[c as int].senders == 0,
        forall|d: int| 0 <= d < s.cells.len() && d != c ==> #[trigger] s.quiet_at(d),
    ensures
        s.after_close(c as int).wf(),
        s.after_close(c as int).extends(s),
        s.after_close(c as int).values() == s.values(),
{
    if s.cells[c as int].signals.len() > 0 {
        let n = s.notified(c as int, false, true);
        lemma_notified_wf(s, c as int, false, true);
        let t = n.with_signals(c as int, Seq::empty());
        assert(t.values() =~= n.values());
        assert forall|d: int| 0 <= d < t.cells.len() implies #[trigger] t.quiet_at(d) by {
            if d != c {
                assert(s.quiet_at(d));
                assert(n.quiet_at(d));
            }
        }
        assert forall|c2: int, k: int|
            0 <= c2 < t.cells.len() && 0 <= k < t.cells[c2].signals.len()
                implies #[trigger] t.cells[c2].signals[k] < t.wakers.len() by {
            assert(n.cells[c2].signals[k] < n.wakers.len());
        }
        assert forall|j: int| 0 <= j < t.memos.len() implies #[trigger] t.memo_wf(j) by {
            assert(n.memo_wf(j));
            let m = n.memos[j];
            assert forall|cc: usize| #[trigger]
                m.leaves.contains(cc) implies cc < t.cells.len() && (t.cells[cc as int].senders > 0
                ==> t.cells[cc as int].signals.contains(m.waker)) by {
                assert(cc < n.cells.len());
            }
        }
    } else {
        assert forall|d: int| 0 <= d < s.cells.len() implies #[trigger] s.quiet_at(d) by {
            if d != c {
                assert(s.quiet_at(d));
            }
        }
    }
}

/// Storing a value that a memo's computation produces from the current
/// values, and clearing the memo's notifier, keeps the store coherent.
pub proof fn lemma_refresh_wf<A>(s: StoreModel<A>, j: usize, v: A)
    requires
        s.wf(),
        j < s.memos.len(),
        (s.memos[j as int].rel)(s.values(), v),
    ensures
        ({
            let w = s.memos[j as int].waker;
            let n = s.with_waker(w as int, WakerModel { changed: false, ..s.wakers[w as int] }).with_cache(j as int, v);
            &&& n.wf()
            &&& n.refreshed_from(s)
            &&& !n.wakers[w as int].changed
            &&& n.memos[j as int].cache == Some(v)
        }),
{
    let w = s.memos[j as int].waker;
    let n = s.with_waker(w as int, WakerModel { changed: false, ..s.wakers[w as int] }).with_cache(j as int, v);
    assert(s.memo_wf(j as int));
    lemma_quiet_same_cells(s, n);
    assert(n.values() =~= s.values());
    assert forall|k: int| 0 <= k < n.memos.len() implies #[trigger] n.memo_wf(k) by {
        assert(s.memo_wf(k));
        if k != j as int {
            assert(s.memos[k].waker != w);
        }
    }
    assert forall|x: int| 0 <= x < s.wakers.len() implies #[trigger] n.wakers[x] == (if s.is_memo_waker(x as usize) {
        WakerModel { changed: n.wakers[x].changed, ..s.wakers[x] }
    } else {
        s.wakers[x]
    }) by {
        if x == w as int {
            assert(s.memos[j as int].waker == w);
            assert(s.is_memo_waker(x as usize));
        }
    }
}

/// Registering a new memo on a fresh notifier that listens to all its
/// leaves keeps the store coherent.
pub proof fn lemma_add_memo_wf<A>(s: StoreModel<A>, w: usize, leaves: Set<usize>, rel: spec_fn(Seq<A>, A) -> bool)
    requires
        s.wf(),
        w < s.wakers.len(),
        s.wakers[w as int] == fresh_waker(),
        !s.is_memo_waker(w),
        forall|c: usize| #[trigger]
            leaves.contains(c) ==> c < s.cells.len() && (s.cells[c as int].senders > 0
                ==> s.cells[c as int].signals.contains(w)),
        forall|c: int|
            0 <= c < s.cells.len() && #[trigger] s.cells[c].signals.contains(w) ==> leaves.contains(
                c as usize,
            ),
        forall|v1: Seq<A>, v2: Seq<A>, x: A|
            #![trigger rel(v1, x), rel(v2, x)]
            agree_on(v1, v2, leaves) ==> rel(v1, x) == rel(v2, x),
    ensures
        (StoreModel { memos: s.memos.push(MemoModel { cache: None, waker: w, leaves, rel }), ..s }).wf(),
{
    let n = StoreModel { memos: s.memos.push(MemoModel { cache: None, waker: w, leaves, rel }), ..s };
    assert(n.values() =~= s.values());
    lemma_quiet_same_cells(s, n);
    assert forall|j: int| 0 <= j < n.memos.len() implies #[trigger] n.memo_wf(j) by {
        if j < s.memos.len() {
            assert(s.memo_wf(j));
        }
    }
    assert forall|j: int, k: int|
        0 <= j < n.memos.len() && 0 <= k < n.memos.len() && j != k
            implies #[trigger] n.memos[j].waker != #[trigger] n.memos[k].waker by {
        if j == s.memos.len() && k < s.memos.len() {
            assert(s.memos[k].waker == n.memos[k].waker);
        }
        if k == s.memos.len() && j < s.memos.len() {
            assert(s.memos[j].waker == n.memos[j].waker);
        }
    }
}


/// A notifier that belongs to no memo keeps belonging to none.
pub proof fn lemma_not_memo_waker_extends<A>(s1: StoreModel<A>, s2: StoreModel<A>, w: usize)
    requires
        w < s1.wakers.len(),
        !s1.is_memo_waker(w),
        s2.extends(s1),
    ensures
        !s2.is_memo_waker(w),
{
    if s2.is_memo_waker(w) {
        let j = choose|j: int| 0 <= j < s2.memos.len() && #[trigger] s2.memos[j].waker == w;
        if j < s1.memos.len() {
            assert(s1.memos[j].waker == w);
        }
    }
}

} // verus!
