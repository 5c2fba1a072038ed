//! Properties of the library that relate several operations.
use vstd::prelude::*;

use crate::memo::{Compute, Compute1, Compute2, Compute3, Compute4, Compute5, Memo, Reader};
use crate::model::{lemma_after_write_wf, lemma_notified_listener, StoreModel};
use crate::task::Poll;
use std::task::Waker;

verus! {

/// A read of a cell gives back the value last written to it, and a write
/// leaves the other cells alone.
pub proof fn law_read_after_write<A>(s: StoreModel<A>, c: usize, v: A)
    requires
        s.wf(),
        c < s.cells.len(),
    ensures
        s.after_write(c as int, v).cells[c as int].value == v,
        forall|d: int|
            0 <= d < s.cells.len() && d != c ==> #[trigger] s.after_write(c as int, v).cells[d].value
                == s.cells[d].value,
{
}

/// After a write, every signal listening to the cell whose owner still
/// exists has a change pending, no task of it is left waiting, and its next
/// poll reports the value written.
pub proof fn law_write_reaches_signals<A>(s: StoreModel<A>, c: usize, v: A, w: usize)
    requires
        s.wf(),
        c < s.cells.len(),
        s.cells[c as int].signals.contains(w),
        s.wakers[w as int].alive,
    ensures
        s.after_write(c as int, v).wakers[w as int].changed,
        s.after_write(c as int, v).wakers[w as int].task is None,
        s.after_write(c as int, v).poll_result(w as int, c as int) == Poll::Ready(Some(v)),
{
    let k = choose|k: int| 0 <= k < s.cells[c as int].signals.len() && s.cells[c as int].signals[k] == w;
    assert(s.cells[c as int].signals[k] < s.wakers.len());
}

/// A poll consumes the pending change: polling again, with no write in
/// between and the source still open, reports nothing new and registers the
/// task.
pub proof fn law_poll_consumes_change<A>(s: StoreModel<A>, w: usize, c: usize, t1: Waker, t2: Waker)
    requires
        w < s.wakers.len(),
        c < s.cells.len(),
        s.wakers[w as int].changed,
        !s.wakers[w as int].closed,
    ensures
        s.poll_result(w as int, c as int) == Poll::Ready(Some(s.cells[c as int].value)),
        s.after_poll(w as int, t1).poll_result(w as int, c as int) == Poll::<Option<A>>::Pending,
        s.after_poll(w as int, t1).after_poll(w as int, t2).wakers[w as int].task == Some(t2),
{
}

/// When the last sender of a cell goes away, every live signal listening to
/// it is closed: a change still pending is reported first, and then the end
/// of the signal.
pub proof fn law_last_sender_closes<A>(s: StoreModel<A>, c: usize, w: usize, t: Waker)
    requires
        s.wf(),
        c < s.cells.len(),
        s.cells[c as int].senders == 1,
        s.cells[c as int].signals.contains(w),
        s.wakers[w as int].alive,
    ensures
        s.after_drop(c as int).wakers[w as int].closed,
        s.after_drop(c as int).wakers[w as int].changed == s.wakers[w as int].changed,
        s.after_drop(c as int).cells[c as int].signals.len() == 0,
        s.after_drop(c as int).cells[c as int].value == s.cells[c as int].value,
        s.after_drop(c as int).after_poll(w as int, t).poll_result(w as int, c as int) == Poll::<
            Option<A>,
        >::Ready(None),
{
    let k = choose|k: int| 0 <= k < s.cells[c as int].signals.len() && s.cells[c as int].signals[k] == w;
    assert(s.cells[c as int].signals[k] < s.wakers.len());
}

/// Swapping two mutables twice gives every cell its value back.
pub proof fn law_swap_twice<A>(s: StoreModel<A>, c1: usize, c2: usize)
    requires
        s.wf(),
        c1 < s.cells.len(),
        c2 < s.cells.len(),
        c1 != c2,
        s.cells[c1 as int].senders > 0,
        s.cells[c2 as int].senders > 0,
    ensures
        ({
            let once = s.after_write(c1 as int, s.cells[c2 as int].value).after_write(
                c2 as int,
                s.cells[c1 as int].value,
            );
            let twice = once.after_write(c1 as int, once.cells[c2 as int].value).after_write(
                c2 as int,
                once.cells[c1 as int].value,
            );
            &&& once.cells[c1 as int].value == s.cells[c2 as int].value
            &&& once.cells[c2 as int].value == s.cells[c1 as int].value
            &&& twice.values() == s.values()
        }),
{
    let once = s.after_write(c1 as int, s.cells[c2 as int].value).after_write(
        c2 as int,
        s.cells[c1 as int].value,
    );
    let twice = once.after_write(c1 as int, once.cells[c2 as int].value).after_write(
        c2 as int,
        once.cells[c1 as int].value,
    );
    assert(twice.values() =~= s.values());
}

/// Writing a mutable that still has a sender keeps every memo coherent: a
/// memo that reports no change after the write holds a value that its
/// computation produces from the values after the write.
pub proof fn law_memo_coherent_after_write<C: Compute>(s: StoreModel<C::Item>, m: Memo<C>, c: usize, v: C::Item)
    requires
        s.wf(),
        m.valid(s),
        c < s.cells.len(),
        s.cells[c as int].senders > 0,
    ensures
        !s.after_write(c as int, v).wakers[m.waker(s) as int].changed ==> m.computation().produces(
            s.after_write(c as int, v).values(),
            s.after_write(c as int, v).memos[m.index() as int].cache->0,
        ),
{
    lemma_after_write_wf(s, c, v);
    let n = s.after_write(c as int, v);
    assert(n.memo_wf(m.index() as int));
}

/// A write to a cell that a memo does not depend on leaves the memo alone:
/// it reports no new change, so its next read returns the cached value
/// without computing.
pub proof fn law_unrelated_write_keeps_memo<A>(s: StoreModel<A>, j: usize, c: usize, v: A)
    requires
        s.wf(),
        j < s.memos.len(),
        c < s.cells.len(),
        !s.memos[j as int].leaves.contains(c),
    ensures
        s.after_write(c as int, v).wakers[s.memos[j as int].waker as int] == s.wakers[s.memos[j as int].waker as int],
        s.after_write(c as int, v).memos[j as int] == s.memos[j as int],
{
    assert(s.memo_wf(j as int));
    assert(!s.cells[c as int].signals.contains(s.memos[j as int].waker));
}

/// A closed signal stays closed: no later state of the store opens it
/// again, and once its last change has been reported, every poll reports the
/// end of the signal.
pub proof fn law_closed_stays_closed<A>(s1: StoreModel<A>, s2: StoreModel<A>, w: usize, c: usize, t: Waker)
    requires
        s2.extends(s1),
        w < s1.wakers.len(),
        c < s2.cells.len(),
        s1.wakers[w as int].closed,
    ensures
        s2.wakers[w as int].closed,
        !s2.wakers[w as int].changed ==> s2.poll_result(w as int, c as int) == Poll::<Option<A>>::Ready(None)
            && s2.after_poll(w as int, t) == s2,
{
}

/// A signal that has ended stays ended: no later state of the store marks
/// its notifier changed or lists it on a cell again, so every later poll
/// reports the end and leaves the store as it was.
pub proof fn law_ended_stays_ended<A>(s1: StoreModel<A>, s2: StoreModel<A>, w: usize, c: usize, t: Waker)
    requires
        s2.extends(s1),
        s1.ended(w),
        c < s2.cells.len(),
    ensures
        s2.ended(w),
        s2.poll_result(w as int, c as int) == Poll::<Option<A>>::Ready(None),
        s2.after_poll(w as int, t) == s2,
{
}

/// A signal of a mutable, registered on that mutable's cell alone, ends for
/// good when the last sender goes away: right after the close, or after the
/// poll that reports its last pending change, its notifier has ended, so
/// from then on every poll reports the end.
pub proof fn law_mutable_signal_end_is_final<A>(s: StoreModel<A>, c: usize, w: usize, task: Waker)
    requires
        s.wf(),
        c < s.cells.len(),
        s.cells[c as int].senders == 1,
        s.cells[c as int].signals.contains(w),
        s.wakers[w as int].alive,
        !s.is_memo_waker(w),
        forall|d: int| 0 <= d < s.cells.len() && d != c ==> !(#[trigger] s.cells[d].signals.contains(w)),
    ensures
        ({
            let t = s.after_drop(c as int);
            &&& t.wakers[w as int].closed
            &&& !t.wakers[w as int].changed ==> t.ended(w)
            &&& t.wakers[w as int].changed ==> t.after_poll(w as int, task).ended(w)
        }),
{
    let k = choose|k: int| 0 <= k < s.cells[c as int].signals.len() && s.cells[c as int].signals[k] == w;
    assert(s.cells[c as int].signals[k] < s.wakers.len());
    let t = s.after_drop(c as int);
    assert forall|d: int| 0 <= d < t.cells.len() implies !(#[trigger] t.cells[d].signals.contains(w)) by {
        if d != c {
            assert(t.cells[d].signals == s.cells[d].signals);
        }
    }
    assert(!t.is_memo_waker(w)) by {
        if t.is_memo_waker(w) {
            let j = choose|j: int| 0 <= j < t.memos.len() && #[trigger] t.memos[j].waker == w;
            assert(s.memos[j].waker == w);
        }
    }
    let u = t.after_poll(w as int, task);
    assert forall|d: int| 0 <= d < u.cells.len() implies !(#[trigger] u.cells[d].signals.contains(w)) by {
        assert(u.cells[d] == t.cells[d]);
    }
    assert(!u.is_memo_waker(w)) by {
        if u.is_memo_waker(w) {
            let j = choose|j: int| 0 <= j < u.memos.len() && #[trigger] u.memos[j].waker == w;
            assert(t.memos[j].waker == w);
        }
    }
}

/// A notifier that a reader subscribed hears of every write to a cell the
/// reader depends on (through nested memos too) while that cell has a
/// sender: the write marks it changed, and nothing but that notifier was
/// added to the cells' lists.
pub proof fn law_subscribed_notifier_hears_writes<R: Reader>(
    r: R,
    s1: StoreModel<R::Item>,
    s2: StoreModel<R::Item>,
    w: usize,
    c: usize,
    v: R::Item,
)
    requires
        s1.wf(),
        r.valid(s1),
        w < s1.wakers.len(),
        s1.wakers[w as int].alive,
        s2.wf(),
        s2.listens(s1, w),
        forall|d: usize|
            #[trigger] r.leaves().contains(d) && s1.cells[d as int].senders > 0
                ==> s2.cells[d as int].signals.contains(w),
        r.leaves().contains(c),
        c < s1.cells.len(),
        s1.cells[c as int].senders > 0,
    ensures
        s2.cells[c as int].signals.contains(w),
        s2.after_write(c as int, v).wakers[w as int].changed,
        s2.after_write(c as int, v).cells[c as int].value == v,
{
    assert(s2.wakers == s1.wakers);
    assert(s2.cells[c as int].signals.contains(w));
}

/// A signal of a mutable whose last sender is gone, registered on no other
/// cell, ends for good at the first poll that reports its end: the cell has
/// no sender and so lists no notifier, the notifier has ended, and every
/// poll in every later state reports the end again and changes nothing.
pub proof fn law_mutable_signal_end_from_poll<A>(s: StoreModel<A>, c: usize, w: usize)
    requires
        s.wf(),
        c < s.cells.len(),
        w < s.wakers.len(),
        !s.is_memo_waker(w),
        s.cells[c as int].senders == 0,
        forall|d: int| 0 <= d < s.cells.len() && d != c ==> !(#[trigger] s.cells[d].signals.contains(w)),
        s.poll_result(w as int, c as int) == Poll::<Option<A>>::Ready(None),
    ensures
        s.ended(w),
        forall|s2: StoreModel<A>|
            #[trigger] s2.extends(s) ==> s2.ended(w) && s2.poll_result(w as int, c as int) == Poll::<Option<A>>::Ready(None)
                && forall|t: Waker| #[trigger] s2.after_poll(w as int, t) == s2,
{
    assert(s.quiet_at(c as int));
    assert forall|d: int| 0 <= d < s.cells.len() implies !(#[trigger] s.cells[d].signals.contains(w)) by {
        if d == c as int {
            assert(s.cells[d].signals.len() == 0);
        }
    }
    assert forall|s2: StoreModel<A>|
        #[trigger] s2.extends(s) implies s2.ended(w) && s2.poll_result(w as int, c as int) == Poll::<Option<A>>::Ready(None)
            && forall|t: Waker| #[trigger] s2.after_poll(w as int, t) == s2 by {
        assert forall|t: Waker| #[trigger] s2.after_poll(w as int, t) == s2 by {
            law_ended_stays_ended(s, s2, w, c, t);
        }
    }
}

/// A poll that finds nothing registers its task, in place of any task
/// registered by an earlier poll: after two such polls, by tasks `a` and then
/// `b`, the task waiting is `b`. The next write to the cell takes that task
/// (none is left waiting) and the next poll reports the value written, not
/// `Pending`.
pub proof fn law_pending_then_write<A>(s: StoreModel<A>, c: usize, v: A, w: usize, a: Waker, b: Waker)
    requires
        s.wf(),
        c < s.cells.len(),
        s.cells[c as int].signals.contains(w),
        s.wakers[w as int].alive,
        s.poll_result(w as int, c as int) == Poll::<Option<A>>::Pending,
    ensures
        s.after_poll(w as int, a).wakers[w as int].task == Some(a),
        s.after_poll(w as int, a).poll_result(w as int, c as int) == Poll::<Option<A>>::Pending,
        s.after_poll(w as int, a).after_poll(w as int, b).wakers[w as int].task == Some(b),
        s.after_poll(w as int, a).after_poll(w as int, b).after_write(c as int, v).wakers[w as int].task is None,
        s.after_poll(w as int, a).after_poll(w as int, b).after_write(c as int, v).poll_result(w as int, c as int)
            == Poll::Ready(Some(v)),
{
    let k = choose|k: int| 0 <= k < s.cells[c as int].signals.len() && s.cells[c as int].signals[k] == w;
    assert(s.cells[c as int].signals[k] < s.wakers.len());
    let t = s.after_poll(w as int, a).after_poll(w as int, b);
    lemma_notified_listener(t.with_value(c as int, v), c as int, true, false, w);
}

/// A computation of 1 reader produces exactly what its function gives for the
/// values of its reader, passed in the order in which the readers were given
/// to `Compute1::new`; and it accepts the values on which the function may
/// be called with them.
pub proof fn law_compute1_argument_order<R1: Reader, F: Fn(R1::Item) -> R1::Item>(
    c: Compute1<R1, F>,
    values: Seq<R1::Item>,
    v: R1::Item,
)
    ensures
        c.produces(values, v) <==> exists|x1: R1::Item|
            #![trigger call_ensures(c.func(), (x1,), v)]
            c.reader1().produces(values, x1) && call_ensures(c.func(), (x1,), v),
        c.accepts(values) ==> forall|x1: R1::Item|
            #![trigger call_requires(c.func(), (x1,))]
            c.reader1().produces(values, x1) ==> call_requires(c.func(), (x1,)),
{
}

/// A computation of 2 readers produces exactly what its function gives for the
/// values of the first and the second reader, passed in the order in which the readers were given
/// to `Compute2::new`; and it accepts the values on which the function may
/// be called with them.
pub proof fn law_compute2_argument_order<R1: Reader, R2: Reader<Item = R1::Item>, F: Fn(R1::Item, R1::Item) -> R1::Item>(
    c: Compute2<R1, R2, F>,
    values: Seq<R1::Item>,
    v: R1::Item,
)
    ensures
        c.produces(values, v) <==> exists|x1: R1::Item, x2: R1::Item|
            #![trigger call_ensures(c.func(), (x1, x2,), v)]
            c.reader1().produces(values, x1) && c.reader2().produces(values, x2) && call_ensures(c.func(), (x1, x2,), v),
        c.accepts(values) ==> forall|x1: R1::Item, x2: R1::Item|
            #![trigger call_requires(c.func(), (x1, x2,))]
            c.reader1().produces(values, x1) && c.reader2().produces(values, x2) ==> call_requires(c.func(), (x1, x2,)),
{
}

/// A computation of 3 readers produces exactly what its function gives for the
/// values of the three readers, passed in the order in which the readers were given
/// to `Compute3::new`; and it accepts the values on which the function may
/// be called with them.
pub proof fn law_compute3_argument_order<R1: Reader, R2: Reader<Item = R1::Item>, R3: Reader<Item = R1::Item>, F: Fn(R1::Item, R1::Item, R1::Item) -> R1::Item>(
    c: Compute3<R1, R2, R3, F>,
    values: Seq<R1::Item>,
    v: R1::Item,
)
    ensures
        c.produces(values, v) <==> exists|x1: R1::Item, x2: R1::Item, x3: R1::Item|
            #![trigger call_ensures(c.func(), (x1, x2, x3,), v)]
            c.reader1().produces(values, x1) && c.reader2().produces(values, x2) && c.reader3().produces(values, x3) && call_ensures(c.func(), (x1, x2, x3,), v),
        c.accepts(values) ==> forall|x1: R1::Item, x2: R1::Item, x3: R1::Item|
            #![trigger call_requires(c.func(), (x1, x2, x3,))]
            c.reader1().produces(values, x1) && c.reader2().produces(values, x2) && c.reader3().produces(values, x3) ==> call_requires(c.func(), (x1, x2, x3,)),
{
}

/// A computation of 4 readers produces exactly what its function gives for the
/// values of the four readers, passed in the order in which the readers were given
/// to `Compute4::new`; and it accepts the values on which the function may
/// be called with them.
pub proof fn law_compute4_argument_order<R1: Reader, R2: Reader<Item = R1::Item>, R3: Reader<Item = R1::Item>, R4: Reader<Item = R1::Item>, F: Fn(R1::Item, R1::Item, R1::Item, R1::Item) -> R1::Item>(
    c: Compute4<R1, R2, R3, R4, F>,
    values: Seq<R1::Item>,
    v: R1::Item,
)
    ensures
        c.produces(values, v) <==> exists|x1: R1::Item, x2: R1::Item, x3: R1::Item, x4: R1::Item|
            #![trigger call_ensures(c.func(), (x1, x2, x3, x4,), v)]
            c.reader1().produces(values, x1) && c.reader2().produces(values, x2) && c.reader3().produces(values, x3) && c.reader4().produces(values, x4) && call_ensures(c.func(), (x1, x2, x3, x4,), v),
        c.accepts(values) ==> forall|x1: R1::Item, x2: R1::Item, x3: R1::Item, x4: R1::Item|
            #![trigger call_requires(c.func(), (x1, x2, x3, x4,))]
            c.reader1().produces(values, x1) && c.reader2().produces(values, x2) && c.reader3().produces(values, x3) && c.reader4().produces(values, x4) ==> call_requires(c.func(), (x1, x2, x3, x4,)),
{
}

/// A computation of 5 readers produces exactly what its function gives for the
/// values of the five readers, passed in the order in which the readers were given
/// to `Compute5::new`; and it accepts the values on which the function may
/// be called with them.
pub proof fn law_compute5_argument_order<R1: Reader, R2: Reader<Item = R1::Item>, R3: Reader<Item = R1::Item>, R4: Reader<Item = R1::Item>, R5: Reader<Item = R1::Item>, F: Fn(R1::Item, R1::Item, R1::Item, R1::Item, R1::Item) -> R1::Item>(
    c: Compute5<R1, R2, R3, R4, R5, F>,
    values: Seq<R1::Item>,
    v: R1::Item,
)
    ensures
        c.produces(values, v) <==> exists|x1: R1::Item, x2: R1::Item, x3: R1::Item, x4: R1::Item, x5: R1::Item|
            #![trigger call_ensures(c.func(), (x1, x2, x3, x4, x5,), v)]
            c.reader1().produces(values, x1) && c.reader2().produces(values, x2) && c.reader3().produces(values, x3) && c.reader4().produces(values, x4) && c.reader5().produces(values, x5) && call_ensures(c.func(), (x1, x2, x3, x4, x5,), v),
        c.accepts(values) ==> forall|x1: R1::Item, x2: R1::Item, x3: R1::Item, x4: R1::Item, x5: R1::Item|
            #![trigger call_requires(c.func(), (x1, x2, x3, x4, x5,))]
            c.reader1().produces(values, x1) && c.reader2().produces(values, x2) && c.reader3().produces(values, x3) && c.reader4().produces(values, x4) && c.reader5().produces(values, x5) ==> call_requires(c.func(), (x1, x2, x3, x4, x5,)),
{
}

/// A clone of a mutable names the same cell with one more sender, so the
/// drop of one of the two closes nothing: the store is as before the clone.
pub proof fn law_clone_then_drop<A>(s: StoreModel<A>, c: usize)
    requires
        s.wf(),
        c < s.cells.len(),
        0 < s.cells[c as int].senders < usize::MAX,
    ensures
        s.with_senders(c as int, (s.cells[c as int].senders + 1) as usize).after_drop(c as int) == s,
{
    let t = s.with_senders(c as int, (s.cells[c as int].senders + 1) as usize).after_drop(c as int);
    assert(t.cells =~= s.cells);
}

/// A cell that lost its last sender never gets one again, so no write
/// (which needs a sender) can change it or wake its signals.
pub proof fn law_no_sender_after_close<A>(s1: StoreModel<A>, s2: StoreModel<A>, c: usize)
    requires
        s2.extends(s1),
        c < s1.cells.len(),
        s1.cells[c as int].senders == 0,
    ensures
        s2.cells[c as int].senders == 0,
{
}

/// In a coherent store, a memo that reports no change holds a value that its
/// computation produces from the current values: a read returns it without
/// computing.
pub proof fn law_memo_coherent<C: Compute>(s: StoreModel<C::Item>, m: Memo<C>)
    requires
        s.wf(),
        m.valid(s),
        !s.wakers[m.waker(s) as int].changed,
    ensures
        s.memos[m.index() as int].cache is Some,
        m.computation().produces(s.values(), s.memos[m.index() as int].cache->0),
{
    assert(s.memo_wf(m.index() as int));
}

} // verus!
