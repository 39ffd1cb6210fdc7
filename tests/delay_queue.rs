use timed_queue::store::{release_before_or_at, DelayStore};
use timed_queue::TimedQueue;

fn drain(s: &mut DelayStore<u32>, now: u64) -> Vec<(u32, Option<u64>)> {
    let mut out = Vec::new();
    while let Ok(e) = s.poll(now) {
        out.push(e);
    }
    out
}

#[test]
fn release_order_of_options() {
    assert!(release_before_or_at(None, None));
    assert!(release_before_or_at(None, Some(0)));
    assert!(!release_before_or_at(Some(0), None));
    assert!(release_before_or_at(Some(3), Some(3)));
    assert!(release_before_or_at(Some(2), Some(3)));
    assert!(!release_before_or_at(Some(4), Some(3)));
}

#[test]
fn new_store_is_empty() {
    let s: DelayStore<u32> = DelayStore::new();
    assert!(s.is_empty());
    assert_eq!(s.len(), 0);
}

#[test]
fn empty_store_waits_without_bound() {
    let mut s: DelayStore<u32> = DelayStore::new();
    assert_eq!(s.poll(0), Err(None));
    assert_eq!(s.poll(u64::MAX), Err(None));
}

#[test]
fn drained_in_release_order() {
    let mut s = DelayStore::new();
    s.push(1, Some(50));
    s.push(2, None);
    s.push(3, Some(10));
    s.push(4, Some(0));
    s.push(5, Some(30));
    s.push(6, None);
    assert_eq!(s.len(), 6);
    assert_eq!(
        drain(&mut s, u64::MAX),
        vec![
            (2, None),
            (6, None),
            (4, Some(0)),
            (3, Some(10)),
            (5, Some(30)),
            (1, Some(50)),
        ]
    );
    assert!(s.is_empty());
}

#[test]
fn none_entry_ready_at_once() {
    let mut s = DelayStore::new();
    s.push(9, None);
    assert_eq!(s.poll(0), Ok((9, None)));
    assert!(s.is_empty());
}

#[test]
fn delayed_entry_waits_for_its_tick() {
    let mut s = DelayStore::new();
    s.push(7, Some(100));
    assert_eq!(s.poll(40), Err(Some(60)));
    assert_eq!(s.poll(99), Err(Some(1)));
    assert_eq!(s.len(), 1);
    assert_eq!(s.poll(100), Ok((7, Some(100))));
    assert_eq!(s.poll(100), Err(None));
}

#[test]
fn later_enqueue_of_earlier_entry_comes_first() {
    let mut s = DelayStore::new();
    s.push(10, Some(10_000));
    assert_eq!(s.poll(0), Err(Some(10_000)));
    s.push(1, Some(1_000));
    assert_eq!(s.poll(0), Err(Some(1_000)));
    assert_eq!(s.poll(1_000), Ok((1, Some(1_000))));
    assert_eq!(s.poll(1_000), Err(Some(9_000)));
    assert_eq!(s.poll(10_000), Ok((10, Some(10_000))));
}

#[test]
fn enqueue_after_empty_is_handed_out() {
    let mut s = DelayStore::new();
    assert_eq!(s.poll(5), Err(None));
    s.push(3, None);
    assert_eq!(s.poll(5), Ok((3, None)));
}

#[test]
fn requeued_entry_not_seen_before_delay() {
    let mut s = DelayStore::new();
    s.push(42, None);
    s.push(8, Some(500));
    let (item, _) = s.poll(100).unwrap();
    assert_eq!(item, 42);
    s.push(item, Some(100 + 300));
    assert_eq!(s.poll(399), Err(Some(1)));
    assert_eq!(s.poll(400), Ok((42, Some(400))));
    assert_eq!(s.poll(499), Err(Some(1)));
    assert_eq!(s.poll(500), Ok((8, Some(500))));
}

#[test]
fn ties_leave_in_arrival_order() {
    let mut s = DelayStore::new();
    s.push(20, None);
    s.push(10, None);
    s.push(5, Some(7));
    s.push(1, Some(7));
    s.push(15, None);
    assert_eq!(
        drain(&mut s, 7),
        vec![(20, None), (10, None), (15, None), (5, Some(7)), (1, Some(7))]
    );
}

#[test]
fn largest_tick() {
    let mut s = DelayStore::new();
    s.push(1, Some(u64::MAX));
    assert_eq!(s.poll(0), Err(Some(u64::MAX)));
    assert_eq!(s.poll(u64::MAX - 1), Err(Some(1)));
    assert_eq!(s.poll(u64::MAX), Ok((1, Some(u64::MAX))));
}

#[test]
fn shared_queue_enqueue_and_try_dequeue() {
    let q = TimedQueue::new();
    assert_eq!(q.try_dequeue(0), Err(None));
    q.enqueue("late", Some(200));
    q.enqueue("now", None);
    q.enqueue("soon", Some(50));
    assert_eq!(q.try_dequeue(10), Ok(("now", None)));
    assert_eq!(q.try_dequeue(10), Err(Some(40)));
    assert_eq!(q.try_dequeue(50), Ok(("soon", Some(50))));
    assert_eq!(q.try_dequeue(60), Err(Some(140)));
    assert_eq!(q.try_dequeue(200), Ok(("late", Some(200))));
    assert_eq!(q.try_dequeue(200), Err(None));
}

#[test]
fn enqueue_leaves_a_wake_permit() {
    let q = TimedQueue::new();
    q.enqueue(1u8, Some(1_000));
    let rt = tokio::runtime::Builder::new_current_thread()
        .enable_time()
        .build()
        .unwrap();
    let woke = rt.block_on(async {
        tokio::time::timeout(std::time::Duration::from_secs(5), q.notifier().notified())
            .await
            .is_ok()
    });
    assert!(woke);
}

#[test]
fn shared_queue_across_threads() {
    let q = std::sync::Arc::new(TimedQueue::new());
    let rt = tokio::runtime::Builder::new_multi_thread()
        .worker_threads(2)
        .build()
        .unwrap();
    let producer = {
        let q = q.clone();
        rt.spawn(async move {
            for i in 0..100u64 {
                q.enqueue(i, Some(100 - i));
            }
        })
    };
    rt.block_on(producer).unwrap();
    let mut got = Vec::new();
    while let Ok((i, _)) = q.try_dequeue(1_000) {
        got.push(i);
    }
    let expected: Vec<u64> = (0..100u64).rev().collect();
    assert_eq!(got, expected);
}
