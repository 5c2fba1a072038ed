use std::cell::Cell;
use std::rc::Rc;
use std::task::{Context, Waker};

use mutable_signals::{Compute1, Compute2, Memo, Mutable, Poll, Reader, Signal, SignalStore};

fn with_noop_context<F: FnOnce(&Context)>(f: F) {
    let cx = Context::from_waker(Waker::noop());
    f(&cx);
}

#[test]
fn test_mutable() {
    let mut store = SignalStore::new();
    let mutable = Mutable::new(&mut store, 1);
    let s1 = mutable.signal(&mut store);
    let s2 = mutable.signal_cloned(&mut store);

    with_noop_context(|cx| {
        assert_eq!(s1.poll_change(&mut store, cx), Poll::Ready(Some(1)));
        assert_eq!(s1.poll_change(&mut store, cx), Poll::Pending);
        assert_eq!(s2.poll_change(&mut store, cx), Poll::Ready(Some(1)));
        assert_eq!(s2.poll_change(&mut store, cx), Poll::Pending);

        mutable.set(&mut store, 5);
        assert_eq!(s1.poll_change(&mut store, cx), Poll::Ready(Some(5)));
        assert_eq!(s1.poll_change(&mut store, cx), Poll::Pending);
        assert_eq!(s2.poll_change(&mut store, cx), Poll::Ready(Some(5)));
        assert_eq!(s2.poll_change(&mut store, cx), Poll::Pending);

        mutable.drop(&mut store);
        assert_eq!(s1.poll_change(&mut store, cx), Poll::Ready(None));
        assert_eq!(s2.poll_change(&mut store, cx), Poll::Ready(None));
    });
}

#[test]
fn test_mutable_drop() {
    {
        let mut store = SignalStore::new();
        let mutable = Mutable::new(&mut store, 1);
        let s1 = mutable.signal(&mut store);
        let s2 = mutable.signal_cloned(&mut store);
        mutable.drop(&mut store);

        with_noop_context(|cx| {
            assert_eq!(s1.poll_change(&mut store, cx), Poll::Ready(Some(1)));
            assert_eq!(s1.poll_change(&mut store, cx), Poll::Ready(None));
            assert_eq!(s2.poll_change(&mut store, cx), Poll::Ready(Some(1)));
            assert_eq!(s2.poll_change(&mut store, cx), Poll::Ready(None));
        });
    }

    {
        let mut store = SignalStore::new();
        let mutable = Mutable::new(&mut store, 1);
        let s1 = mutable.signal(&mut store);
        let s2 = mutable.signal_cloned(&mut store);

        with_noop_context(|cx| {
            assert_eq!(s1.poll_change(&mut store, cx), Poll::Ready(Some(1)));
            assert_eq!(s1.poll_change(&mut store, cx), Poll::Pending);
            assert_eq!(s2.poll_change(&mut store, cx), Poll::Ready(Some(1)));
            assert_eq!(s2.poll_change(&mut store, cx), Poll::Pending);

            mutable.set(&mut store, 5);
            mutable.drop(&mut store);

            assert_eq!(s1.poll_change(&mut store, cx), Poll::Ready(Some(5)));
            assert_eq!(s1.poll_change(&mut store, cx), Poll::Ready(None));
            assert_eq!(s2.poll_change(&mut store, cx), Poll::Ready(Some(5)));
            assert_eq!(s2.poll_change(&mut store, cx), Poll::Ready(None));
        });
    }

    {
        let mut store = SignalStore::new();
        let mutable = Mutable::new(&mut store, 1);
        let s1 = mutable.signal(&mut store);
        let s2 = mutable.signal_cloned(&mut store);

        with_noop_context(|cx| {
            assert_eq!(s1.poll_change(&mut store, cx), Poll::Ready(Some(1)));
            assert_eq!(s1.poll_change(&mut store, cx), Poll::Pending);
            assert_eq!(s2.poll_change(&mut store, cx), Poll::Ready(Some(1)));
            assert_eq!(s2.poll_change(&mut store, cx), Poll::Pending);

            mutable.set(&mut store, 5);
            assert_eq!(s1.poll_change(&mut store, cx), Poll::Ready(Some(5)));
            assert_eq!(s1.poll_change(&mut store, cx), Poll::Pending);

            mutable.drop(&mut store);
            assert_eq!(s2.poll_change(&mut store, cx), Poll::Ready(Some(5)));
            assert_eq!(s2.poll_change(&mut store, cx), Poll::Ready(None));

            assert_eq!(s1.poll_change(&mut store, cx), Poll::Ready(None));
        });
    }
}

#[test]
fn test_send_sync() {
    let mut store = SignalStore::new();
    let mutable = Mutable::new(&mut store, 1);
    let signal = mutable.signal(&mut store);
    let signal_cloned = mutable.signal_cloned(&mut store);

    let _: Box<dyn Send + Sync> = Box::new(mutable);
    let _: Box<dyn Send + Sync> = Box::new(signal);
    let _: Box<dyn Send + Sync> = Box::new(signal_cloned);
    let _: Box<dyn Send + Sync> = Box::new(store);
}

/// Polls the signal until it ends, running `action` once, the first time the
/// signal has nothing new to report.
fn get_signal_polls<F: FnOnce(&mut SignalStore<i32>)>(
    store: &mut SignalStore<i32>,
    signal: &mutable_signals::MutableSignal<i32>,
    action: F,
) -> Vec<Poll<Option<i32>>> {
    let mut polls = Vec::new();
    let mut action = Some(action);
    with_noop_context(|cx| loop {
        let poll = signal.poll_change(store, cx);
        polls.push(poll);
        match poll {
            Poll::Ready(None) => break,
            Poll::Pending => match action.take() {
                Some(action) => action(store),
                None => panic!("the signal is stuck"),
            },
            Poll::Ready(Some(_)) => {}
        }
    });
    polls
}

// Verifies that lock_mut only notifies when it is mutated
#[test]
fn test_lock_mut() {
    {
        let mut store = SignalStore::new();
        let m = Mutable::new(&mut store, 1);
        let signal = m.signal(&mut store);

        let polls = get_signal_polls(&mut store, &signal, move |store| {
            let mut lock = m.lock_mut(store);

            if *lock.deref() == 2 {
                *lock.deref_mut() = 5;
            }
            lock.drop();
            m.drop(store);
        });

        assert_eq!(polls, vec![Poll::Ready(Some(1)), Poll::Pending, Poll::Ready(None)]);
    }

    {
        let mut store = SignalStore::new();
        let m = Mutable::new(&mut store, 1);
        let signal = m.signal(&mut store);

        let polls = get_signal_polls(&mut store, &signal, move |store| {
            let mut lock = m.lock_mut(store);

            if *lock.deref() == 1 {
                *lock.deref_mut() = 5;
            }
            lock.drop();
            m.drop(store);
        });

        assert_eq!(
            polls,
            vec![Poll::Ready(Some(1)), Poll::Pending, Poll::Ready(Some(5)), Poll::Ready(None)]
        );
    }
}

#[test]
fn is_from_t() {
    let mut store = SignalStore::new();
    let src = 0;
    let _out: Mutable<u8> = Mutable::from(&mut store, src);

    let src = 0;
    let _out: Mutable<u8> = Mutable::from(&mut store, src);
}

#[test]
fn memo_reader_usize() {
    let mut store: SignalStore<usize> = SignalStore::new();
    let mutable = Mutable::new(&mut store, 10);
    let memo = Memo::new(&mut store, Compute1::new(mutable.read_only(), |m| m * 2));

    let mutable_i = mutable.read_only();
    immutable(&mut store, mutable, mutable_i, memo);

    fn immutable<I1: Reader<Item = usize>, I2: Reader<Item = usize>>(
        store: &mut SignalStore<usize>,
        mutable: Mutable<usize>,
        mutable_reader: I1,
        memo_reader: I2,
    ) {
        let memo2 = Memo::new(store, Compute1::new(memo_reader.clone(), |m| m * 2));

        assert_eq!(mutable_reader.get(store), 10);
        assert_eq!(memo_reader.get(store), 20);
        assert_eq!(memo2.get(store), 40);

        let mutable_signal = mutable_reader.signal(store);
        let memo_signal = memo_reader.signal(store);

        with_noop_context(|cx| {
            assert_eq!(mutable_reader.get(store), 10);
            assert_eq!(memo_reader.get(store), 20);

            mutable.set(store, 20);
            assert_eq!(mutable_reader.get(store), 20);
            assert_eq!(memo_reader.get(store), 40);

            assert_eq!(mutable_signal.poll_change(store, cx), Poll::Ready(Some(20)));
            assert_eq!(mutable_signal.poll_change(store, cx), Poll::Pending);
            assert_eq!(memo_signal.poll_change(store, cx), Poll::Ready(Some(40)));
            assert_eq!(memo_signal.poll_change(store, cx), Poll::Pending);

            mutable.set(store, 30);

            // here we expect the signal to recompute the memo without depending on the memo to recompute itself
            assert_eq!(mutable_signal.poll_change(store, cx), Poll::Ready(Some(30)));
            assert_eq!(mutable_signal.poll_change(store, cx), Poll::Pending);
            assert_eq!(memo_signal.poll_change(store, cx), Poll::Ready(Some(60)));
            assert_eq!(memo_signal.poll_change(store, cx), Poll::Pending);
        });
    }
}

#[test]
fn memo_ensure_lazy_compute() {
    let mut store: SignalStore<usize> = SignalStore::new();
    let mutable = Mutable::new(&mut store, 10);

    let memo_counter = Rc::new(Cell::new(0usize));
    memo_counter.set(0);

    let counter = memo_counter.clone();
    let memo = Memo::new(
        &mut store,
        Compute1::new(mutable.read_only(), move |_m| {
            let value = counter.get() + 1;
            counter.set(value);
            value
        }),
    );

    mutable.set(&mut store, 20);
    mutable.set(&mut store, 30);

    assert_eq!(memo.get(&mut store), 1);
}

#[test]
fn memo_from_one_mutable_usize() {
    let mut store: SignalStore<usize> = SignalStore::new();
    let mutable = Mutable::new(&mut store, 10);
    let memo = Memo::new(&mut store, Compute1::new(mutable.read_only(), |m| m * 2));

    let memo_signal1 = memo.signal(&mut store);
    let memo_signal2 = memo.signal(&mut store);

    with_noop_context(|cx| {
        assert_eq!(memo.get(&mut store), 20);

        mutable.set(&mut store, 20);
        assert_eq!(memo.get(&mut store), 40);

        assert_eq!(memo_signal1.poll_change(&mut store, cx), Poll::Ready(Some(40)));
        assert_eq!(memo_signal1.poll_change(&mut store, cx), Poll::Pending);
        assert_eq!(memo_signal2.poll_change(&mut store, cx), Poll::Ready(Some(40)));
        assert_eq!(memo_signal2.poll_change(&mut store, cx), Poll::Pending);

        mutable.set(&mut store, 30);

        // here we expect the signal to recompute the memo without depending on the memo to recompute itself
        assert_eq!(memo_signal1.poll_change(&mut store, cx), Poll::Ready(Some(60)));
        assert_eq!(memo_signal1.poll_change(&mut store, cx), Poll::Pending);
        assert_eq!(memo_signal2.poll_change(&mut store, cx), Poll::Ready(Some(60)));
        assert_eq!(memo_signal2.poll_change(&mut store, cx), Poll::Pending);

        mutable.drop(&mut store);

        assert_eq!(memo_signal1.poll_change(&mut store, cx), Poll::Ready(None));
        assert_eq!(memo_signal2.poll_change(&mut store, cx), Poll::Ready(None));
    });
}

#[test]
fn memo_from_one_mutable_string() {
    let mut store: SignalStore<String> = SignalStore::new();
    let mutable = Mutable::new(&mut store, "a".to_string());
    let memo = Memo::new(&mut store, Compute1::new(mutable.read_only(), |m| m + "_suffix"));

    let memo_signal1 = memo.signal_cloned(&mut store);
    let memo_signal2 = memo.signal_cloned(&mut store);

    with_noop_context(|cx| {
        assert_eq!(memo.get_cloned(&mut store), "a_suffix");

        mutable.set(&mut store, "b".to_string());
        assert_eq!(memo.get_cloned(&mut store), "b_suffix");

        assert_eq!(memo_signal1.poll_change(&mut store, cx), Poll::Ready(Some("b_suffix".to_string())));
        assert_eq!(memo_signal1.poll_change(&mut store, cx), Poll::Pending);
        assert_eq!(memo_signal2.poll_change(&mut store, cx), Poll::Ready(Some("b_suffix".to_string())));
        assert_eq!(memo_signal2.poll_change(&mut store, cx), Poll::Pending);

        mutable.set(&mut store, "c".to_string());

        // here we expect the signal to recompute the memo without depending on the memo to recompute itself
        assert_eq!(memo_signal1.poll_change(&mut store, cx), Poll::Ready(Some("c_suffix".to_string())));
        assert_eq!(memo_signal1.poll_change(&mut store, cx), Poll::Pending);
        assert_eq!(memo_signal2.poll_change(&mut store, cx), Poll::Ready(Some("c_suffix".to_string())));
        assert_eq!(memo_signal2.poll_change(&mut store, cx), Poll::Pending);

        mutable.drop(&mut store);

        assert_eq!(memo_signal1.poll_change(&mut store, cx), Poll::Ready(None));
        assert_eq!(memo_signal2.poll_change(&mut store, cx), Poll::Ready(None));
    });
}

#[test]
fn memo_from_two_mutables_usize() {
    let mut store: SignalStore<usize> = SignalStore::new();
    let mutable1 = Mutable::new(&mut store, 1);
    let mutable2 = Mutable::new(&mut store, 2);
    let memo = Memo::new(
        &mut store,
        Compute2::new(mutable1.read_only(), mutable2.read_only(), |m1, m2| m1 + m2),
    );

    let memo_signal1 = memo.signal(&mut store);
    let memo_signal2 = memo.signal(&mut store);

    with_noop_context(|cx| {
        assert_eq!(memo.get(&mut store), 3);

        mutable1.set(&mut store, 10);
        assert_eq!(memo.get(&mut store), 12);
        mutable2.set(&mut store, 20);
        assert_eq!(memo.get(&mut store), 30);

        assert_eq!(memo_signal1.poll_change(&mut store, cx), Poll::Ready(Some(30)));
        assert_eq!(memo_signal1.poll_change(&mut store, cx), Poll::Pending);
        assert_eq!(memo_signal2.poll_change(&mut store, cx), Poll::Ready(Some(30)));
        assert_eq!(memo_signal2.poll_change(&mut store, cx), Poll::Pending);

        mutable1.set(&mut store, 100);
        assert_eq!(memo.get(&mut store), 120);
        mutable2.set(&mut store, 200);
        assert_eq!(memo.get(&mut store), 300);

        // here we expect the signal to recompute the memo without depending on the memo to recompute itself
        assert_eq!(memo_signal1.poll_change(&mut store, cx), Poll::Ready(Some(300)));
        assert_eq!(memo_signal1.poll_change(&mut store, cx), Poll::Pending);
        assert_eq!(memo_signal2.poll_change(&mut store, cx), Poll::Ready(Some(300)));
        assert_eq!(memo_signal2.poll_change(&mut store, cx), Poll::Pending);

        mutable1.drop(&mut store);

        assert_eq!(memo_signal1.poll_change(&mut store, cx), Poll::Ready(None));
        assert_eq!(memo_signal2.poll_change(&mut store, cx), Poll::Ready(None));
    });
}

#[test]
fn memo_from_one_memo_usize() {
    let mut store: SignalStore<usize> = SignalStore::new();
    let mutable = Mutable::new(&mut store, 10);
    let src_memo = Memo::new(&mut store, Compute1::new(mutable.read_only(), |m| m * 2));
    let memo = Memo::new(&mut store, Compute1::new(src_memo, |m| m * 2));

    let memo_signal1 = memo.signal(&mut store);
    let memo_signal2 = memo.signal(&mut store);

    with_noop_context(|cx| {
        assert_eq!(memo.get(&mut store), 40);

        mutable.set(&mut store, 20);
        assert_eq!(memo.get(&mut store), 80);

        assert_eq!(memo_signal1.poll_change(&mut store, cx), Poll::Ready(Some(80)));
        assert_eq!(memo_signal1.poll_change(&mut store, cx), Poll::Pending);
        assert_eq!(memo_signal2.poll_change(&mut store, cx), Poll::Ready(Some(80)));
        assert_eq!(memo_signal2.poll_change(&mut store, cx), Poll::Pending);

        mutable.set(&mut store, 30);

        // here we expect the signal to recompute the memo without depending on the memo to recompute itself
        assert_eq!(memo_signal1.poll_change(&mut store, cx), Poll::Ready(Some(120)));
        assert_eq!(memo_signal1.poll_change(&mut store, cx), Poll::Pending);
        assert_eq!(memo_signal2.poll_change(&mut store, cx), Poll::Ready(Some(120)));
        assert_eq!(memo_signal2.poll_change(&mut store, cx), Poll::Pending);

        mutable.drop(&mut store);

        assert_eq!(memo_signal1.poll_change(&mut store, cx), Poll::Ready(None));
        assert_eq!(memo_signal2.poll_change(&mut store, cx), Poll::Ready(None));
    });
}

#[test]
fn memo_from_two_memos_usize() {
    let mut store: SignalStore<usize> = SignalStore::new();
    let mutable1 = Mutable::new(&mut store, 1);
    let src_memo1 = Memo::new(&mut store, Compute1::new(mutable1.read_only(), |m| m * 10));
    let mutable2 = Mutable::new(&mut store, 2);
    let src_memo2 = Memo::new(&mut store, Compute1::new(mutable2.read_only(), |m| m * 10));
    let memo = Memo::new(&mut store, Compute2::new(src_memo1, src_memo2, |m1, m2| m1 + m2));

    let memo_signal1 = memo.signal(&mut store);
    let memo_signal2 = memo.signal(&mut store);

    with_noop_context(|cx| {
        assert_eq!(memo.get(&mut store), 30);

        mutable1.set(&mut store, 10);
        assert_eq!(memo.get(&mut store), 120);
        mutable2.set(&mut store, 20);
        assert_eq!(memo.get(&mut store), 300);

        assert_eq!(memo_signal1.poll_change(&mut store, cx), Poll::Ready(Some(300)));
        assert_eq!(memo_signal1.poll_change(&mut store, cx), Poll::Pending);
        assert_eq!(memo_signal2.poll_change(&mut store, cx), Poll::Ready(Some(300)));
        assert_eq!(memo_signal2.poll_change(&mut store, cx), Poll::Pending);

        mutable1.set(&mut store, 100);
        assert_eq!(memo.get(&mut store), 1200);
        mutable2.set(&mut store, 200);
        assert_eq!(memo.get(&mut store), 3000);

        // here we expect the signal to recompute the memo without depending on the memo to recompute itself
        assert_eq!(memo_signal1.poll_change(&mut store, cx), Poll::Ready(Some(3000)));
        assert_eq!(memo_signal1.poll_change(&mut store, cx), Poll::Pending);
        assert_eq!(memo_signal2.poll_change(&mut store, cx), Poll::Ready(Some(3000)));
        assert_eq!(memo_signal2.poll_change(&mut store, cx), Poll::Pending);

        mutable1.drop(&mut store);

        assert_eq!(memo_signal1.poll_change(&mut store, cx), Poll::Ready(None));
        assert_eq!(memo_signal2.poll_change(&mut store, cx), Poll::Ready(None));
    });
}

#[test]
fn memos_in_struct() {
    let mut store: SignalStore<usize> = SignalStore::new();
    let mutable = Mutable::new(&mut store, 10);
    let memo = Memo::new(&mut store, Compute1::new(mutable.read_only(), |m| m * 2));

    struct MemoInStruct<MemoReader: Reader<Item = usize>, F: Fn(usize) -> usize> {
        memo: MemoReader,
        memo_memo: Memo<Compute1<MemoReader, F>>,
    }

    fn new1<MemoReader: Reader<Item = usize>>(
        store: &mut SignalStore<usize>,
        memo: MemoReader,
    ) -> MemoInStruct<MemoReader, impl Fn(usize) -> usize> {
        let memo_memo = Memo::new(store, Compute1::new(memo.clone(), |m| m * 2));

        MemoInStruct { memo, memo_memo }
    }

    let memo_in_struct = new1(&mut store, memo);

    assert_eq!(memo_in_struct.memo.get(&mut store), 20);
    assert_eq!(memo_in_struct.memo_memo.get(&mut store), 40);

    mutable.set(&mut store, 11);
    assert_eq!(memo_in_struct.memo.get(&mut store), 22);
    assert_eq!(memo_in_struct.memo_memo.get(&mut store), 44);
}
