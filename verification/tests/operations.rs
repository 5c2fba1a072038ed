use std::cell::Cell;
use std::rc::Rc;
use std::sync::atomic::{AtomicUsize, Ordering};
use std::sync::Arc;
use std::task::{Context, Wake, Waker};

use mutable_signals::{
    Compute1, Compute3, Compute4, Compute5, Memo, Mutable, Poll, Reader, SignalStore,
};

fn with_noop_context<F: FnOnce(&Context)>(f: F) {
    let cx = Context::from_waker(Waker::noop());
    f(&cx);
}

struct CountingWaker(AtomicUsize);

impl Wake for CountingWaker {
    fn wake(self: Arc<Self>) {
        self.0.fetch_add(1, Ordering::SeqCst);
    }
}

#[test]
fn read_after_write() {
    let mut store = SignalStore::new();
    let a = Mutable::new(&mut store, 1);
    let b = Mutable::new(&mut store, 2);
    a.set(&mut store, 7);
    assert_eq!(a.get(&mut store), 7);
    assert_eq!(b.get(&mut store), 2);
    assert_eq!(*a.lock_ref(&store), 7);
    assert_eq!(a.read_only().get_cloned(&store), 7);
}

#[test]
fn replace_returns_previous_value() {
    let mut store = SignalStore::new();
    let m = Mutable::new(&mut store, 3);
    let s = m.signal(&mut store);
    with_noop_context(|cx| {
        assert_eq!(s.poll_change(&mut store, cx), Poll::Ready(Some(3)));
        assert_eq!(m.replace(&mut store, 4), 3);
        assert_eq!(m.get(&store), 4);
        assert_eq!(s.poll_change(&mut store, cx), Poll::Ready(Some(4)));
        assert_eq!(s.poll_change(&mut store, cx), Poll::Pending);
    });
}

#[test]
fn replace_with_hands_back_the_value_as_left() {
    let mut store = SignalStore::new();
    let m = Mutable::new(&mut store, 10);
    let old = m.replace_with(&mut store, |v| {
        *v += 1;
        *v * 2
    });
    assert_eq!(old, 11);
    assert_eq!(m.get(&store), 22);
}

#[test]
fn swap_exchanges_and_notifies_both() {
    let mut store = SignalStore::new();
    let a = Mutable::new(&mut store, "a".to_string());
    let b = Mutable::new(&mut store, "b".to_string());
    let sa = a.signal_cloned(&mut store);
    let sb = b.signal_cloned(&mut store);
    with_noop_context(|cx| {
        assert_eq!(sa.poll_change(&mut store, cx), Poll::Ready(Some("a".to_string())));
        assert_eq!(sb.poll_change(&mut store, cx), Poll::Ready(Some("b".to_string())));
        a.swap(&mut store, &b);
        assert_eq!(sa.poll_change(&mut store, cx), Poll::Ready(Some("b".to_string())));
        assert_eq!(sb.poll_change(&mut store, cx), Poll::Ready(Some("a".to_string())));
        a.swap(&mut store, &b);
        assert_eq!(a.get_cloned(&store), "a");
        assert_eq!(b.get_cloned(&store), "b");
    });
}

#[test]
fn set_if_notifies_only_when_asked() {
    let mut store = SignalStore::new();
    let m = Mutable::new(&mut store, 5);
    let s = m.signal(&mut store);
    with_noop_context(|cx| {
        assert_eq!(s.poll_change(&mut store, cx), Poll::Ready(Some(5)));
        m.set_if(&mut store, 3, |old, new| new > old);
        assert_eq!(m.get(&store), 5);
        assert_eq!(s.poll_change(&mut store, cx), Poll::Pending);
        m.set_if(&mut store, 8, |old, new| new > old);
        assert_eq!(m.get(&store), 8);
        assert_eq!(s.poll_change(&mut store, cx), Poll::Ready(Some(8)));
    });
}

#[test]
fn set_neq_skips_equal_values() {
    let mut store = SignalStore::new();
    let m = Mutable::new(&mut store, 5);
    let s = m.signal(&mut store);
    with_noop_context(|cx| {
        assert_eq!(s.poll_change(&mut store, cx), Poll::Ready(Some(5)));
        m.set_neq(&mut store, 5);
        assert_eq!(s.poll_change(&mut store, cx), Poll::Pending);
        m.set_neq(&mut store, 6);
        assert_eq!(s.poll_change(&mut store, cx), Poll::Ready(Some(6)));
    });
}

#[test]
fn signals_end_with_the_last_sender() {
    let mut store = SignalStore::new();
    let m = Mutable::new(&mut store, 1);
    let m2 = m.clone(&mut store);
    let s = m.signal(&mut store);
    with_noop_context(|cx| {
        assert_eq!(s.poll_change(&mut store, cx), Poll::Ready(Some(1)));
        m.drop(&mut store);
        assert_eq!(s.poll_change(&mut store, cx), Poll::Pending);
        m2.set(&mut store, 2);
        assert_eq!(s.poll_change(&mut store, cx), Poll::Ready(Some(2)));
        m2.drop(&mut store);
        assert_eq!(s.poll_change(&mut store, cx), Poll::Ready(None));
        assert_eq!(s.poll_change(&mut store, cx), Poll::Ready(None));
    });
}

#[test]
fn signal_made_after_the_last_sender_never_ends() {
    let mut store = SignalStore::new();
    let m = Mutable::new(&mut store, 9);
    let r = m.read_only();
    m.drop(&mut store);
    let s = r.signal(&mut store);
    with_noop_context(|cx| {
        assert_eq!(s.poll_change(&mut store, cx), Poll::Ready(Some(9)));
        assert_eq!(s.poll_change(&mut store, cx), Poll::Pending);
        assert_eq!(s.poll_change(&mut store, cx), Poll::Pending);
    });
}

#[test]
fn signal_ref_maps_the_value() {
    let mut store = SignalStore::new();
    let m = Mutable::new(&mut store, 4);
    let s = m.signal_ref(&mut store, |v: &i32| v * 10);
    with_noop_context(|cx| {
        assert_eq!(s.poll_change(&mut store, cx), Poll::Ready(Some(40)));
        m.set(&mut store, 5);
        assert_eq!(s.poll_change(&mut store, cx), Poll::Ready(Some(50)));
        m.drop(&mut store);
        assert_eq!(s.poll_change(&mut store, cx), Poll::Ready(None));
    });
}

#[test]
fn dropped_signal_leaves_the_others_alone() {
    let mut store = SignalStore::new();
    let m = Mutable::new(&mut store, 1);
    let s1 = m.signal(&mut store);
    let s2 = m.signal(&mut store);
    with_noop_context(|cx| {
        assert_eq!(s1.poll_change(&mut store, cx), Poll::Ready(Some(1)));
        assert_eq!(s2.poll_change(&mut store, cx), Poll::Ready(Some(1)));
        s1.drop(&mut store);
        m.set(&mut store, 2);
        assert_eq!(s2.poll_change(&mut store, cx), Poll::Ready(Some(2)));
    });
}

#[test]
fn waiting_task_is_woken_once_per_change() {
    let counter = Arc::new(CountingWaker(AtomicUsize::new(0)));
    let waker = Waker::from(counter.clone());
    let cx = Context::from_waker(&waker);

    let mut store = SignalStore::new();
    let m = Mutable::new(&mut store, 1);
    let s = m.signal(&mut store);
    assert_eq!(s.poll_change(&mut store, &cx), Poll::Ready(Some(1)));
    assert_eq!(s.poll_change(&mut store, &cx), Poll::Pending);
    assert_eq!(counter.0.load(Ordering::SeqCst), 0);
    m.set(&mut store, 2);
    assert_eq!(counter.0.load(Ordering::SeqCst), 1);
    m.set(&mut store, 3);
    assert_eq!(counter.0.load(Ordering::SeqCst), 1);
    assert_eq!(s.poll_change(&mut store, &cx), Poll::Ready(Some(3)));
    assert_eq!(s.poll_change(&mut store, &cx), Poll::Pending);
    m.drop(&mut store);
    assert_eq!(counter.0.load(Ordering::SeqCst), 2);
    assert_eq!(s.poll_change(&mut store, &cx), Poll::Ready(None));
}

#[test]
fn default_mutable_holds_the_default() {
    let mut store: SignalStore<i32> = SignalStore::new();
    let m = Mutable::default(&mut store);
    assert_eq!(m.get(&store), 0);
}

#[test]
fn memo_recomputes_only_after_a_change() {
    let mut store: SignalStore<usize> = SignalStore::new();
    let a = Mutable::new(&mut store, 1);
    let b = Mutable::new(&mut store, 100);
    let calls = Rc::new(Cell::new(0usize));
    let counted = calls.clone();
    let memo = Memo::new(
        &mut store,
        Compute1::new(a.read_only(), move |v| {
            counted.set(counted.get() + 1);
            v + 1
        }),
    );
    assert_eq!(calls.get(), 0);
    assert_eq!(memo.get(&mut store), 2);
    assert_eq!(memo.get(&mut store), 2);
    assert_eq!(calls.get(), 1);
    b.set(&mut store, 200);
    assert_eq!(memo.get(&mut store), 2);
    assert_eq!(calls.get(), 1);
    a.set(&mut store, 5);
    assert_eq!(calls.get(), 1);
    assert_eq!(memo.get(&mut store), 6);
    assert_eq!(calls.get(), 2);
}

#[test]
fn memo_clone_shares_the_computation() {
    let mut store: SignalStore<usize> = SignalStore::new();
    let a = Mutable::new(&mut store, 3);
    let memo = Memo::new(&mut store, Compute1::new(a.read_only(), |v| v * 7));
    let copy = memo.clone();
    assert_eq!(copy.get(&mut store), 21);
    a.set(&mut store, 4);
    assert_eq!(Reader::get(&copy, &mut store), 28);
    assert_eq!(memo.get(&mut store), 28);
}

#[test]
fn memos_of_three_four_and_five_readers() {
    let mut store: SignalStore<u64> = SignalStore::new();
    let m: Vec<Mutable<u64>> = (1..=5).map(|v| Mutable::new(&mut store, v)).collect();
    let three = Memo::new(
        &mut store,
        Compute3::new(m[0].read_only(), m[1].read_only(), m[2].read_only(), |a, b, c| a * 100 + b * 10 + c),
    );
    let four = Memo::new(
        &mut store,
        Compute4::new(m[0].read_only(), m[1].read_only(), m[2].read_only(), m[3].read_only(), |a, b, c, d| {
            a + b + c + d
        }),
    );
    let five = Memo::new(
        &mut store,
        Compute5::new(
            m[0].read_only(),
            m[1].read_only(),
            m[2].read_only(),
            m[3].read_only(),
            m[4].read_only(),
            |a, b, c, d, e| a * b * c * d * e,
        ),
    );
    assert_eq!(three.get(&mut store), 123);
    assert_eq!(four.get(&mut store), 10);
    assert_eq!(five.get(&mut store), 120);
    m[4].set(&mut store, 10);
    assert_eq!(three.get(&mut store), 123);
    assert_eq!(four.get(&mut store), 10);
    assert_eq!(five.get(&mut store), 240);
    let s = five.signal(&mut store);
    with_noop_context(|cx| {
        assert_eq!(s.poll_change(&mut store, cx), Poll::Ready(Some(240)));
        m[0].set(&mut store, 2);
        assert_eq!(s.poll_change(&mut store, cx), Poll::Ready(Some(480)));
        assert_eq!(s.poll_change(&mut store, cx), Poll::Pending);
    });
}

#[test]
fn memo_signal_ends_when_an_input_loses_its_last_sender() {
    let mut store: SignalStore<usize> = SignalStore::new();
    let a = Mutable::new(&mut store, 1);
    let memo = Memo::new(&mut store, Compute1::new(a.read_only(), |v| v + 1));
    let s = memo.signal(&mut store);
    with_noop_context(|cx| {
        a.set(&mut store, 2);
        a.drop(&mut store);
        assert_eq!(s.poll_change(&mut store, cx), Poll::Ready(Some(3)));
        assert_eq!(s.poll_change(&mut store, cx), Poll::Ready(None));
    });
}

#[test]
fn ended_signal_stays_ended() {
    let mut store = SignalStore::new();
    let m = Mutable::new(&mut store, 5);
    let s = m.signal(&mut store);
    let other = Mutable::new(&mut store, 0);
    with_noop_context(|cx| {
        m.set(&mut store, 6);
        m.drop(&mut store);
        assert_eq!(s.poll_change(&mut store, cx), Poll::Ready(Some(6)));
        assert_eq!(s.poll_change(&mut store, cx), Poll::Ready(None));
        other.set(&mut store, 1);
        let later = other.signal(&mut store);
        assert_eq!(later.poll_change(&mut store, cx), Poll::Ready(Some(1)));
        assert_eq!(s.poll_change(&mut store, cx), Poll::Ready(None));
        assert_eq!(s.poll_change(&mut store, cx), Poll::Ready(None));
    });
}

#[test]
fn clone_then_drop_closes_nothing() {
    let mut store = SignalStore::new();
    let m = Mutable::new(&mut store, 1);
    let s = m.signal(&mut store);
    let m2 = m.clone(&mut store);
    m2.set(&mut store, 8);
    assert_eq!(m.get(&store), 8);
    m2.drop(&mut store);
    with_noop_context(|cx| {
        assert_eq!(s.poll_change(&mut store, cx), Poll::Ready(Some(8)));
        assert_eq!(s.poll_change(&mut store, cx), Poll::Pending);
        m.set(&mut store, 9);
        assert_eq!(s.poll_change(&mut store, cx), Poll::Ready(Some(9)));
    });
}
