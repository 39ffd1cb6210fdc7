//! A delay queue: entries carry a release tick, or none to be ready at once,
//! and leave the queue earliest release first, never before their tick.
use vstd::prelude::*;
use vstd::rwlock::{RwLock, RwLockPredicate};
use tokio::sync::Notify;

pub mod laws;
pub mod store;

use crate::store::{DelayStore, Entry, is_ready, polled, sorted_by_release};

verus! {

/// tokio's `Notify`, carried as an opaque value.
#[verifier::external_type_specification]
#[verifier::external_body]
pub struct ExNotify(tokio::sync::Notify);

/// Relies on tokio's `Notify::new`: builds a wake signal that holds no permit.
pub assume_specification[ tokio::sync::Notify::new ]() -> tokio::sync::Notify;

/// Relies on tokio's `Notify::notify_one`: wakes the first waiting task, or
/// stores a single permit for the next one; it never blocks.
pub assume_specification[ tokio::sync::Notify::notify_one ](n: &tokio::sync::Notify);

/// What the lock of a queue keeps true of the store it guards.
pub struct StoreIsOrdered;

impl<T> RwLockPredicate<DelayStore<T>> for StoreIsOrdered {
    open spec fn inv(self, s: DelayStore<T>) -> bool {
        s.wf()
    }
}

/// A delay queue shared by producers and consumers (behind an `Arc`): an
/// ordered store under a lock, and a signal that wakes a waiting consumer
/// after each enqueue.
pub struct TimedQueue<T> {
    storage: RwLock<DelayStore<T>, StoreIsOrdered>,
    notify: Notify,
}

impl<T> TimedQueue<T> {
    /// An empty queue.
    pub fn new() -> (q: Self) {
        TimedQueue {
            storage: RwLock::new(DelayStore::new(), Ghost(StoreIsOrdered)),
            notify: Notify::new(),
        }
    }

    /// Adds `t`, released at tick `expiration` (`None`: at once), then wakes
    /// one waiting consumer, whether or not `t` is now the first entry.
    pub fn enqueue(&self, t: T, expiration: Option<u64>) {
        let (mut store, handle) = self.storage.acquire_write();
        store.push(t, expiration);
        handle.release_write(store);
        self.notify.notify_one();
    }

    /// One check of the queue at tick `now`: the first entry when it is
    /// ready, else the ticks to wait before it is (`None`: wait for a
    /// signal). The lock is held only for the check. Other handles may
    /// change the store at any time, so what holds is that the result is the
    /// poll of some ordered store.
    pub fn try_dequeue(&self, now: u64) -> (r: Result<Entry<T>, Option<u64>>)
        ensures
            exists|s: Seq<Entry<T>>| sorted_by_release(s) && r == #[trigger] polled(s, now),
            r matches Ok(e) ==> is_ready(e.1, now),
            r matches Err(Some(w)) ==> 0 < w && now + w <= u64::MAX,
    {
        let (mut store, handle) = self.storage.acquire_write();
        let ghost before = store@;
        let r = store.poll(now);
        assert(sorted_by_release(before) && r == polled(before, now));
        handle.release_write(store);
        r
    }

    /// The signal that `enqueue` fires, for a consumer to wait on.
    pub fn notifier(&self) -> (n: &Notify) {
        &self.notify
    }
}

} // verus!
