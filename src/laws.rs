//! What holds of the store across several operations, stated over the
//! models that `DelayStore::push` and `DelayStore::poll` are proved against.
use vstd::prelude::*;

use crate::store::{
    Entry, after_poll, enqueued, is_ready, lemma_enqueued_keeps_order, lemma_enqueued_split, polled, release_le,
    sorted_by_release,
};

verus! {

/// The store that a sequence of enqueues builds from an empty one.
pub open spec fn enqueued_all<T>(es: Seq<Entry<T>>) -> Seq<Entry<T>>
    decreases es.len(),
{
    if es.len() == 0 {
        Seq::empty()
    } else {
        enqueued(enqueued_all(es.drop_last()), es.last())
    }
}

/// Whatever sequence of enqueues built it, the store is ordered, and two
/// polls in a row that both hand out an entry hand them out in order of
/// release time: `None` before any tick, ticks in non-decreasing order.
pub proof fn lemma_dequeue_in_release_order<T>(es: Seq<Entry<T>>, now1: u64, now2: u64)
    ensures
        sorted_by_release(enqueued_all(es)),
        enqueued_all(es).len() == es.len(),
        ({
            let s = enqueued_all(es);
            match (polled(s, now1), polled(after_poll(s, now1), now2)) {
                (Ok(a), Ok(b)) => release_le(a.1, b.1),
                _ => true,
            }
        }),
    decreases es.len(),
{
    if es.len() > 0 {
        lemma_dequeue_in_release_order(es.drop_last(), now1, now2);
        lemma_enqueued_keeps_order(enqueued_all(es.drop_last()), es.last());
    }
    let s = enqueued_all(es);
    if s.len() >= 2 {
        if is_ready(s[0].1, now1) {
            assert(after_poll(s, now1)[0] == s[1]);
            assert(release_le(s[0].1, s[1].1));
        }
    }
}

/// An entry enqueued with no release time on an empty store is handed out
/// by the very next poll, at any tick.
pub proof fn lemma_immediate_availability<T>(item: T, now: u64)
    ensures
        polled(enqueued(Seq::<Entry<T>>::empty(), (item, None)), now) == Ok::<Entry<T>, Option<u64>>(
            (item, None),
        ),
        after_poll(enqueued(Seq::<Entry<T>>::empty(), (item, None)), now) == Seq::<Entry<T>>::empty(),
{
    let s = enqueued(Seq::<Entry<T>>::empty(), (item, None));
    assert(s =~= seq![(item, None)]);
    assert(s.drop_first() =~= Seq::<Entry<T>>::empty());
}

/// An entry enqueued for tick `t` on an empty store is not handed out before
/// `t`; until then a poll asks to wait exactly the ticks that remain, and
/// from `t` on the poll hands it out.
pub proof fn lemma_delayed_availability<T>(item: T, t: u64, now: u64)
    ensures
        polled(enqueued(Seq::<Entry<T>>::empty(), (item, Some(t))), now) == if t <= now {
            Ok::<Entry<T>, Option<u64>>((item, Some(t)))
        } else {
            Err(Some((t - now) as u64))
        },
{
    let s = enqueued(Seq::<Entry<T>>::empty(), (item, Some(t)));
    assert(s =~= seq![(item, Some(t))]);
}

/// With an entry due at `ta` in the store, an entry enqueued later for an
/// earlier tick `tb` is the one a poll hands out or waits for.
pub proof fn lemma_earlier_entry_preempts<T>(a: T, ta: u64, b: T, tb: u64, now: u64)
    requires
        tb < ta,
    ensures
        ({
            let s = enqueued(enqueued(Seq::<Entry<T>>::empty(), (a, Some(ta))), (b, Some(tb)));
            polled(s, now) == if tb <= now {
                Ok::<Entry<T>, Option<u64>>((b, Some(tb)))
            } else {
                Err(Some((tb - now) as u64))
            }
        }),
{
    let s1 = enqueued(Seq::<Entry<T>>::empty(), (a, Some(ta)));
    assert(s1 =~= seq![(a, Some(ta))]);
    let s = enqueued(s1, (b, Some(tb)));
    assert(!release_le(s1[0].1, Some(tb)));
    assert(s =~= seq![(b, Some(tb)), (a, Some(ta))]);
}

/// A poll of an empty store waits for a signal with no bound; once an entry
/// is enqueued, a poll at a tick where it is ready hands it out.
pub proof fn lemma_empty_then_enqueued<T>(item: T, release_at: Option<u64>, now: u64)
    ensures
        polled(Seq::<Entry<T>>::empty(), now) == Err::<Entry<T>, Option<u64>>(None),
        is_ready(release_at, now) ==> polled(
            enqueued(Seq::<Entry<T>>::empty(), (item, release_at)),
            now,
        ) == Ok::<Entry<T>, Option<u64>>((item, release_at)),
{
    let s = enqueued(Seq::<Entry<T>>::empty(), (item, release_at));
    assert(s =~= seq![(item, release_at)]);
}

/// An entry enqueued again for tick `t` into any ordered store is not handed
/// out by a poll before `t`: what a poll hands out then has another release
/// time, and the entry stays in the store.
pub proof fn lemma_requeued_not_seen_early<T>(s: Seq<Entry<T>>, item: T, t: u64, now: u64)
    requires
        sorted_by_release(s),
        now < t,
    ensures
        polled(enqueued(s, (item, Some(t))), now) matches Ok(e) ==> e.1 != Some(t),
        after_poll(enqueued(s, (item, Some(t))), now).contains((item, Some(t))),
{
    let e = (item, Some(t));
    let q = enqueued(s, e);
    let p = lemma_enqueued_split(s, e);
    assert(q[p] == e);
    if is_ready(q[0].1, now) {
        assert(p != 0);
        assert(after_poll(q, now)[p - 1] == e);
    } else {
        assert(after_poll(q, now)[p] == e);
    }
}

/// Two entries with the same release time leave in the order they came:
/// enqueued `a` then `b`, polls at a tick where both are ready hand out `a`,
/// then `b`.
pub proof fn lemma_ties_in_arrival_order<T>(a: T, b: T, release_at: Option<u64>, now: u64)
    requires
        is_ready(release_at, now),
    ensures
        ({
            let s = enqueued(enqueued(Seq::<Entry<T>>::empty(), (a, release_at)), (b, release_at));
            &&& polled(s, now) == Ok::<Entry<T>, Option<u64>>((a, release_at))
            &&& polled(after_poll(s, now), now) == Ok::<Entry<T>, Option<u64>>((b, release_at))
        }),
{
    let s1 = enqueued(Seq::<Entry<T>>::empty(), (a, release_at));
    assert(s1 =~= seq![(a, release_at)]);
    let s = enqueued(s1, (b, release_at));
    assert(release_le(release_at, release_at));
    assert(s1.drop_first() =~= Seq::<Entry<T>>::empty());
    assert(enqueued(s1.drop_first(), (b, release_at)) =~= seq![(b, release_at)]);
    assert(s =~= seq![(a, release_at), (b, release_at)]);
    assert(s.drop_first() =~= seq![(b, release_at)]);
}

} // verus!
