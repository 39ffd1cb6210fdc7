use vstd::prelude::*;

verus! {

/// An entry of the store: a payload and the tick at which it is released
/// (`None`: released at once).
pub type Entry<T> = (T, Option<u64>);

/// Release times in the order of retrieval: `None` before every tick, ticks
/// by their value.
pub open spec fn release_le(a: Option<u64>, b: Option<u64>) -> bool {
    match (a, b) {
        (None, _) => true,
        (Some(_), None) => false,
        (Some(x), Some(y)) => x <= y,
    }
}

/// An entry released at `release_at` may be handed out at tick `now`.
pub open spec fn is_ready(release_at: Option<u64>, now: u64) -> bool {
    match release_at {
        None => true,
        Some(t) => t <= now,
    }
}

/// The entries are in order of release time.
pub open spec fn sorted_by_release<T>(s: Seq<Entry<T>>) -> bool {
    forall|i: int, j: int|
        0 <= i < j < s.len() ==> release_le(#[trigger] s[i].1, #[trigger] s[j].1)
}

/// The store after `e` is added to `s`: after every entry released no later
/// than it (so among equal release times the older entry stays first), before
/// every entry released later.
pub open spec fn enqueued<T>(s: Seq<Entry<T>>, e: Entry<T>) -> Seq<Entry<T>>
    decreases s.len(),
{
    if s.len() == 0 {
        seq![e]
    } else if release_le(s[0].1, e.1) {
        seq![s[0]] + enqueued(s.drop_first(), e)
    } else {
        seq![e] + s
    }
}

/// What a poll of the store `s` at tick `now` gives: the first entry when it
/// is ready, else how many ticks remain until it is (`None` when the store is
/// empty).
pub open spec fn polled<T>(s: Seq<Entry<T>>, now: u64) -> Result<Entry<T>, Option<u64>> {
    if s.len() == 0 {
        Err(None)
    } else if is_ready(s[0].1, now) {
        Ok(s[0])
    } else {
        Err(Some((s[0].1.unwrap() - now) as u64))
    }
}

/// The store after a poll of `s` at tick `now`: without its first entry when
/// that entry was handed out, else unchanged.
pub open spec fn after_poll<T>(s: Seq<Entry<T>>, now: u64) -> Seq<Entry<T>> {
    if s.len() > 0 && is_ready(s[0].1, now) {
        s.drop_first()
    } else {
        s
    }
}

/// Entries ordered by release time, the earliest first. Entries with the same
/// release time leave in the order they came, whatever their payloads.
/// Release times are ticks of a monotonic clock chosen by the caller.
pub struct DelayStore<T> {
    entries: Vec<Entry<T>>,
}

impl<T> View for DelayStore<T> {
    type V = Seq<Entry<T>>;

    closed spec fn view(&self) -> Seq<Entry<T>> {
        self.entries@
    }
}

impl<T> DelayStore<T> {
    pub open spec fn wf(&self) -> bool {
        sorted_by_release(self@)
    }

    /// An empty store.
    pub fn new() -> (s: Self)
        ensures
            s.wf(),
            s@ == Seq::<Entry<T>>::empty(),
    {
        DelayStore { entries: Vec::new() }
    }

    pub fn len(&self) -> (n: usize)
        ensures
            n == self@.len(),
    {
        self.entries.len()
    }

    /// Adds `item`, released at `release_at`, after every entry released no
    /// later and before every entry released later.
    pub fn push(&mut self, item: T, release_at: Option<u64>)
        requires
            old(self).wf(),
        ensures
            final(self).wf(),
            final(self)@ == enqueued(old(self)@, (item, release_at)),
    {
        let ghost s = self@;
        let len: usize = self.entries.len();
        let mut lo: usize = 0;
        let mut hi: usize = len;
        while lo < hi
            invariant
                s == self@,
                len == s.len(),
                sorted_by_release(s),
                0 <= lo <= hi <= len,
                forall|i: int| 0 <= i < lo ==> release_le(#[trigger] s[i].1, release_at),
                forall|i: int| hi <= i < len ==> !release_le(#[trigger] s[i].1, release_at),
            decreases hi - lo,
        {
            let mid: usize = lo + (hi - lo) / 2;
            if release_before_or_at(self.entries[mid].1, release_at) {
                assert forall|i: int| 0 <= i <= mid implies release_le(
                    #[trigger] s[i].1,
                    release_at,
                ) by {
                    if i < mid {
                        assert(release_le(s[i].1, s[mid as int].1));
                    }
                }
                lo = mid + 1;
            } else {
                assert forall|i: int| mid <= i < len implies !release_le(
                    #[trigger] s[i].1,
                    release_at,
                ) by {
                    if i > mid {
                        assert(release_le(s[mid as int].1, s[i].1));
                    }
                }
                hi = mid;
            }
        }
        proof {
            lemma_enqueued_at(s, (item, release_at), lo as int);
        }
        proof {
            lemma_insert_keeps_order(s, (item, release_at), lo as int);
        }
        self.entries.insert(lo, (item, release_at));
    }

    /// Hands out the first entry when it is ready at tick `now`; otherwise
    /// leaves the store as it is and tells how many ticks remain until the
    /// first entry is ready (`None` when the store is empty).
    pub fn poll(&mut self, now: u64) -> (r: Result<Entry<T>, Option<u64>>)
        requires
            old(self).wf(),
        ensures
            final(self).wf(),
            r == polled(old(self)@, now),
            final(self)@ == after_poll(old(self)@, now),
    {
        if self.entries.len() == 0 {
            return Err(None);
        }
        let first = self.entries[0].1;
        let ready = match first {
            None => true,
            Some(t) => t <= now,
        };
        if ready {
            let e = self.entries.remove(0);
            assert(self@ =~= old(self)@.drop_first());
            assert(sorted_by_release(self@)) by {
                assert forall|i: int, j: int| 0 <= i < j < self@.len() implies release_le(
                    #[trigger] self@[i].1,
                    #[trigger] self@[j].1,
                ) by {
                    assert(self@[i] == old(self)@[i + 1] && self@[j] == old(self)@[j + 1]);
                }
            }
            Ok(e)
        } else {
            Err(Some(first.unwrap() - now))
        }
    }

    pub fn is_empty(&self) -> (b: bool)
        ensures
            b == (self@.len() == 0),
    {
        self.entries.len() == 0
    }
}

/// Executable form of `release_le`.
pub fn release_before_or_at(a: Option<u64>, b: Option<u64>) -> (r: bool)
    ensures
        r == release_le(a, b),
{
    match (a, b) {
        (None, _) => true,
        (Some(_), None) => false,
        (Some(x), Some(y)) => x <= y,
    }
}

/// Inserting `e` at `p`, after every entry released no later and before
/// every entry released later, keeps an ordered sequence ordered.
proof fn lemma_insert_keeps_order<T>(s: Seq<Entry<T>>, e: Entry<T>, p: int)
    requires
        sorted_by_release(s),
        0 <= p <= s.len(),
        forall|i: int| 0 <= i < p ==> release_le(#[trigger] s[i].1, e.1),
        forall|i: int| p <= i < s.len() ==> !release_le(#[trigger] s[i].1, e.1),
    ensures
        sorted_by_release(s.insert(p, e)),
{
    let t = s.insert(p, e);
    assert forall|i: int, j: int| 0 <= i < j < t.len() implies release_le(
        #[trigger] t[i].1,
        #[trigger] t[j].1,
    ) by {
        if j < p {
            assert(t[i] == s[i] && t[j] == s[j]);
        } else if j == p {
            assert(t[i] == s[i]);
        } else if i == p {
            assert(t[j] == s[j - 1]);
        } else if i < p {
            assert(t[i] == s[i] && t[j] == s[j - 1]);
        } else {
            assert(t[i] == s[i - 1] && t[j] == s[j - 1]);
        }
    }
}

/// In an ordered sequence, `enqueued` inserts `e` at the one place where
/// every entry before it is released no later and every entry after it later.
pub proof fn lemma_enqueued_split<T>(s: Seq<Entry<T>>, e: Entry<T>) -> (p: int)
    requires
        sorted_by_release(s),
    ensures
        0 <= p <= s.len(),
        forall|i: int| 0 <= i < p ==> release_le(#[trigger] s[i].1, e.1),
        forall|i: int| p <= i < s.len() ==> !release_le(#[trigger] s[i].1, e.1),
        enqueued(s, e) == s.insert(p, e),
    decreases s.len(),
{
    if s.len() == 0 {
        assert(s.insert(0, e) =~= seq![e]);
        0
    } else if release_le(s[0].1, e.1) {
        let tail = s.drop_first();
        let q = lemma_enqueued_split(tail, e);
        assert forall|i: int| 0 <= i < q + 1 implies release_le(#[trigger] s[i].1, e.1) by {
            if i > 0 {
                assert(s[i] == tail[i - 1]);
            }
        }
        assert forall|i: int| q + 1 <= i < s.len() implies !release_le(#[trigger] s[i].1, e.1) by {
            assert(s[i] == tail[i - 1]);
        }
        assert(s.insert(q + 1, e) =~= seq![s[0]] + tail.insert(q, e));
        q + 1
    } else {
        assert forall|i: int| 0 <= i < s.len() implies !release_le(#[trigger] s[i].1, e.1) by {
            if i > 0 {
                assert(release_le(s[0].1, s[i].1));
            }
        }
        assert(s.insert(0, e) =~= seq![e] + s);
        0
    }
}

/// `enqueued` keeps an ordered sequence ordered.
pub proof fn lemma_enqueued_keeps_order<T>(s: Seq<Entry<T>>, e: Entry<T>)
    requires
        sorted_by_release(s),
    ensures
        sorted_by_release(enqueued(s, e)),
        enqueued(s, e).len() == s.len() + 1,
{
    let p = lemma_enqueued_split(s, e);
    lemma_insert_keeps_order(s, e, p);
}

/// Adding `e` where every entry before it is released no later and every
/// entry from it on is released later is what `enqueued` describes.
proof fn lemma_enqueued_at<T>(s: Seq<Entry<T>>, e: Entry<T>, p: int)
    requires
        0 <= p <= s.len(),
        forall|i: int| 0 <= i < p ==> release_le(#[trigger] s[i].1, e.1),
        forall|i: int| p <= i < s.len() ==> !release_le(#[trigger] s[i].1, e.1),
    ensures
        enqueued(s, e) == s.insert(p, e),
    decreases s.len(),
{
    if s.len() == 0 {
        assert(s.insert(p, e) =~= seq![e]);
    } else if p == 0 {
        assert(!release_le(s[0].1, e.1));
        assert(s.insert(0, e) =~= seq![e] + s);
    } else {
        let tail = s.drop_first();
        assert(release_le(s[0].1, e.1));
        assert forall|i: int| 0 <= i < p - 1 implies release_le(#[trigger] tail[i].1, e.1) by {
            assert(tail[i] == s[i + 1]);
        }
        assert forall|i: int| p - 1 <= i < tail.len() implies !release_le(
            #[trigger] tail[i].1,
            e.1,
        ) by {
            assert(tail[i] == s[i + 1]);
        }
        lemma_enqueued_at(tail, e, p - 1);
        assert(s.insert(p, e) =~= seq![s[0]] + tail.insert(p - 1, e));
    }
}

} // verus!
