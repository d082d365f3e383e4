//! A multiplexer of expiry timers.
//!
//! [`TimerMap`] maps absolute deadlines to opaque payloads, kept sorted
//! by deadline; several entries may share a deadline and are all
//! retained independently.  [`Timers`] adds the single cached "next
//! wake" deadline: the embedding waits until that instant and then
//! drains every entry that has become due in one batch, so one
//! suspended wait serves any number of scheduled timers and nothing is
//! ever polled busily.
//!
//! Instants are plain `u64` values on an arbitrary monotonic scale; the
//! embedding converts from its clock.

use vstd::prelude::*;

verus! {

/// Entries are kept sorted by deadline, non-decreasing.
pub open spec fn sorted_by_deadline<T>(s: Seq<(u64, T)>) -> bool {
    forall|i: int, j: int| 0 <= i < j < s.len() ==> #[trigger] s[i].0 <= #[trigger] s[j].0
}

/// Where a new entry with deadline `t` goes: the number of leading
/// entries whose deadline is at most `t`.  In a sorted sequence this is
/// also the number of entries due at time `t`.
pub open spec fn split_point<T>(s: Seq<(u64, T)>, t: u64) -> int
    decreases s.len(),
{
    if s.len() == 0 {
        0
    } else if s[0].0 <= t {
        1 + split_point(s.skip(1), t)
    } else {
        0
    }
}

/// `split_point` cuts the sequence into a prefix of entries due at `t`
/// and, in a sorted sequence, a suffix of entries that are not yet due.
pub proof fn lemma_split_point<T>(s: Seq<(u64, T)>, t: u64)
    ensures
        0 <= split_point(s, t) <= s.len(),
        forall|i: int| 0 <= i < split_point(s, t) ==> #[trigger] s[i].0 <= t,
        sorted_by_deadline(s) ==> forall|i: int|
            split_point(s, t) <= i < s.len() ==> #[trigger] s[i].0 > t,
    decreases s.len(),
{
    if s.len() > 0 {
        lemma_split_point(s.skip(1), t);
        let p = split_point(s, t);
        assert forall|i: int| 0 <= i < p implies #[trigger] s[i].0 <= t by {
            if i > 0 {
                assert(s.skip(1)[i - 1].0 <= t);
            }
        }
        if sorted_by_deadline(s) {
            assert forall|a: int, b: int| 0 <= a < b < s.skip(1).len() implies #[trigger] s.skip(
                1,
            )[a].0 <= #[trigger] s.skip(1)[b].0 by {
                assert(s[a + 1].0 <= s[b + 1].0);
            }
            assert forall|i: int| p <= i < s.len() implies #[trigger] s[i].0 > t by {
                if s[0].0 <= t {
                    assert(s.skip(1)[i - 1].0 > t);
                } else {
                    if i > 0 {
                        assert(s[0].0 <= s[i].0);
                    }
                }
            }
        }
    }
}

/// A mapping from absolute deadlines to payloads, sorted by deadline.
pub struct TimerMap<T> {
    entries: Vec<(u64, T)>,
}

impl<T> View for TimerMap<T> {
    type V = Seq<(u64, T)>;

    closed spec fn view(&self) -> Seq<(u64, T)> {
        self.entries@
    }
}

impl<T> TimerMap<T> {
    /// The sortedness invariant; established by [`TimerMap::new`] and
    /// preserved by every operation.
    pub open spec fn wf(self) -> bool {
        sorted_by_deadline(self@)
    }

    /// An empty map.
    pub fn new() -> (r: TimerMap<T>)
        ensures
            r@ == Seq::<(u64, T)>::empty(),
            r.wf(),
    {
        TimerMap { entries: Vec::new() }
    }

    /// How many entries the map holds.
    pub fn len(&self) -> (r: usize)
        ensures
            r == self@.len(),
    {
        self.entries.len()
    }

    /// Add an entry at the given deadline.  It goes after every entry
    /// whose deadline is at most `instant`, so entries sharing a
    /// deadline stay in insertion order and sortedness is preserved.
    pub fn insert(&mut self, instant: u64, item: T)
        requires
            old(self).wf(),
        ensures
            final (self).wf(),
            final (self)@ == old(self)@.insert(split_point(old(self)@, instant), (instant, item)),
    {
        proof {
            lemma_split_point(self@, instant);
        }
        let ghost s = self@;
        let mut i: usize = 0;
        while i < self.entries.len() && self.entries[i].0 <= instant
            invariant
                self@ == s,
                0 <= i <= s.len(),
                forall|k: int| 0 <= k < i ==> #[trigger] s[k].0 <= instant,
            decreases s.len() - i,
        {
            i = i + 1;
        }
        proof {
            assert(i as int == split_point(s, instant)) by {
                lemma_split_point(s, instant);
                let p = split_point(s, instant);
                if i < s.len() {
                    assert(s[i as int].0 > instant);
                }
                if p < i {
                    assert(s[p].0 <= instant);
                    assert(s[p].0 > instant);
                }
                if i < p {
                    assert(s[i as int].0 <= instant);
                }
            }
        }
        self.entries.insert(i, (instant, item));
        proof {
            let t = self@;
            lemma_split_point(s, instant);
            assert forall|a: int, b: int| 0 <= a < b < t.len() implies #[trigger] t[a].0
                <= #[trigger] t[b].0 by {
                let p = i as int;
                if a < p && b > p {
                    assert(s[a].0 <= instant);
                    assert(t[b].0 == s[b - 1].0);
                    assert(s[p].0 > instant || p == s.len());
                }
            }
        }
    }

    /// The earliest deadline in the map, if any.
    pub fn first_deadline(&self) -> (r: Option<u64>)
        requires
            self.wf(),
        ensures
            r == (if self@.len() == 0 {
                Option::<u64>::None
            } else {
                Option::<u64>::Some(self@[0].0)
            }),
            forall|i: int| 0 <= i < self@.len() ==> (r matches Some(d) && d <= #[trigger] self@[i].0),
    {
        if self.entries.len() == 0 {
            None
        } else {
            Some(self.entries[0].0)
        }
    }

    /// Remove and return every entry whose deadline is at or before
    /// `now`, in deadline order; later entries stay, their order kept.
    pub fn drain_until(&mut self, now: u64) -> (drained: Vec<(u64, T)>)
        requires
            old(self).wf(),
        ensures
            final (self).wf(),
            drained@ == old(self)@.take(split_point(old(self)@, now)),
            final (self)@ == old(self)@.skip(split_point(old(self)@, now)),
            forall|i: int| 0 <= i < drained@.len() ==> #[trigger] drained@[i].0 <= now,
            forall|i: int| 0 <= i < final (self)@.len() ==> #[trigger] final (self)@[i].0 > now,
    {
        proof {
            lemma_split_point(self@, now);
        }
        let ghost s = self@;
        let mut drained: Vec<(u64, T)> = Vec::new();
        while self.entries.len() > 0 && self.entries[0].0 <= now
            invariant
                drained@.len() <= s.len(),
                drained@ == s.take(drained@.len() as int),
                self.entries@ == s.skip(drained@.len() as int),
                forall|k: int| 0 <= k < drained@.len() ==> #[trigger] s[k].0 <= now,
            decreases self.entries@.len(),
        {
            let entry = self.entries.remove(0);
            proof {
                assert(entry == s[drained@.len() as int]);
                assert(self.entries@ =~= s.skip(drained@.len() as int + 1));
            }
            drained.push(entry);
            proof {
                assert(drained@ =~= s.take(drained@.len() as int));
            }
        }
        proof {
            let k = drained@.len() as int;
            lemma_split_point(s, now);
            assert(k == split_point(s, now)) by {
                let p = split_point(s, now);
                if k < s.len() {
                    assert(s.skip(k)[0] == s[k]);
                    assert(s[k].0 > now);
                }
                if p < k {
                    assert(s[p].0 <= now);
                    assert(s[p].0 > now);
                }
                if k < p {
                    assert(s[k].0 <= now);
                }
            }
            assert(sorted_by_deadline(s.skip(k))) by {
                assert(forall|a: int, b: int|
                    0 <= a < b < s.skip(k).len() ==> #[trigger] s.skip(k)[a].0 <= #[trigger] s.skip(
                        k,
                    )[b].0);
            }
            assert forall|i: int| 0 <= i < self@.len() implies #[trigger] self@[i].0 > now by {
                assert(self@[i] == s[k + i]);
            }
        }
        drained
    }
}

/// A set of pending timers together with the cached earliest wake-up.
///
/// The cache is `Some(d)` only while `d` is the earliest deadline in
/// the map; the embedding suspends until `d` and then calls
/// [`Timers::drain_due`].  Draining invalidates the cache (it becomes
/// `None`); [`Timers::insert`] and [`Timers::reset`] recompute it.
/// With nothing cached the embedding has nothing to wait for and its
/// wait never resolves.
pub struct Timers<T> {
    map: TimerMap<T>,
    next: Option<u64>,
}

impl<T> Timers<T> {
    /// The entries currently scheduled, sorted by deadline.
    pub closed spec fn entries(self) -> Seq<(u64, T)> {
        self.map@
    }

    /// The cached next-wake deadline.
    pub closed spec fn cached(self) -> Option<u64> {
        self.next
    }

    /// Invariant: the map is sorted, and whenever a wake-up is cached
    /// it is exactly the earliest deadline present.
    pub open spec fn wf(self) -> bool {
        &&& sorted_by_deadline(self.entries())
        &&& match self.cached() {
            Some(d) => self.entries().len() > 0 && d == self.entries()[0].0,
            None => true,
        }
    }

    /// An empty timer set with no cached wake-up.
    pub fn new() -> (r: Timers<T>)
        ensures
            r.wf(),
            r.entries() == Seq::<(u64, T)>::empty(),
            r.cached() is None,
    {
        Timers { map: TimerMap::new(), next: None }
    }

    /// Schedule `item` at `instant` and recompute the cached wake-up,
    /// which afterwards is the earliest deadline scheduled.
    pub fn insert(&mut self, instant: u64, item: T)
        requires
            old(self).wf(),
        ensures
            final (self).wf(),
            final (self).entries() == old(self).entries().insert(
                split_point(old(self).entries(), instant),
                (instant, item),
            ),
            final (self).cached() == Some(final (self).entries()[0].0),
            final (self).cached() matches Some(d) && d <= instant,
    {
        proof {
            lemma_split_point(self.entries(), instant);
        }
        self.map.insert(instant, item);
        self.reset();
        proof {
            let s = old(self).entries();
            let p = split_point(s, instant);
            if p > 0 {
                assert(final (self).entries()[0] == s[0]);
                assert(s[0].0 <= instant);
            }
        }
    }

    /// Recompute the cached wake-up from the earliest deadline present,
    /// clearing it if nothing is scheduled.
    pub fn reset(&mut self)
        requires
            sorted_by_deadline(old(self).entries()),
        ensures
            final (self).wf(),
            final (self).entries() == old(self).entries(),
            final (self).cached() == (if old(self).entries().len() == 0 {
                Option::<u64>::None
            } else {
                Option::<u64>::Some(old(self).entries()[0].0)
            }),
    {
        self.next = self.map.first_deadline();
    }

    /// The deadline the embedding should wait for, if any.  `None`
    /// means nothing is scheduled (or the cache was invalidated by a
    /// drain): there is nothing to wake up for.
    pub fn next_wake(&self) -> (r: Option<u64>)
        ensures
            r == self.cached(),
    {
        self.next
    }

    /// Called once the cached deadline has elapsed (`now` is the
    /// current instant): remove and return every entry due at or
    /// before `now` — at least the entry that set the wake-up — and
    /// invalidate the cache.  The caller recomputes it with
    /// [`Timers::reset`] (or by a further insert) if entries remain.
    pub fn drain_due(&mut self, now: u64) -> (drained: Vec<(u64, T)>)
        requires
            old(self).wf(),
            old(self).cached() matches Some(d) && d <= now,
        ensures
            final (self).wf(),
            drained@ == old(self).entries().take(split_point(old(self).entries(), now)),
            final (self).entries() == old(self).entries().skip(
                split_point(old(self).entries(), now),
            ),
            final (self).cached() is None,
            drained@.len() >= 1,
            forall|i: int| 0 <= i < drained@.len() ==> #[trigger] drained@[i].0 <= now,
            forall|i: int|
                0 <= i < final (self).entries().len() ==> #[trigger] final (self).entries()[i].0
                    > now,
    {
        let drained = self.map.drain_until(now);
        self.next = None;
        proof {
            let s = old(self).entries();
            lemma_split_point(s.skip(1), now);
            assert(s[0].0 <= now);
            assert(split_point(s, now) == 1 + split_point(s.skip(1), now));
        }
        drained
    }
}

/// Draining returns the due entries in deadline order and leaves the
/// rest: with three entries at deadlines `t1 < t2 < t3`, a drain once
/// `t1` has elapsed (but not `t2`) yields exactly the `t1` entry, and
/// a later drain once `t3` has elapsed yields the remaining two
/// together.
pub proof fn lemma_staged_drain<T>(t1: u64, t2: u64, t3: u64, x1: T, x2: T, x3: T, now1: u64, now2: u64)
    requires
        t1 < t2 < t3,
        t1 <= now1 < t2,
        t3 <= now2,
    ensures
        ({
            let s0 = Seq::<(u64, T)>::empty();
            let s1 = s0.insert(split_point(s0, t1), (t1, x1));
            let s2 = s1.insert(split_point(s1, t2), (t2, x2));
            let s3 = s2.insert(split_point(s2, t3), (t3, x3));
            let drained1 = s3.take(split_point(s3, now1));
            let left = s3.skip(split_point(s3, now1));
            let drained2 = left.take(split_point(left, now2));
            let left2 = left.skip(split_point(left, now2));
            &&& s3 == seq![(t1, x1), (t2, x2), (t3, x3)]
            &&& drained1 == seq![(t1, x1)]
            &&& drained2 == seq![(t2, x2), (t3, x3)]
            &&& left2 == Seq::<(u64, T)>::empty()
        }),
{
    reveal_with_fuel(split_point, 6);
    let s0 = Seq::<(u64, T)>::empty();
    assert(split_point(s0, t1) == 0);
    let s1 = s0.insert(split_point(s0, t1), (t1, x1));
    assert(s1 =~= seq![(t1, x1)]);
    assert(s1.skip(1) =~= Seq::<(u64, T)>::empty());
    assert(split_point(s1, t2) == 1);
    let s2 = s1.insert(split_point(s1, t2), (t2, x2));
    assert(s2 =~= seq![(t1, x1), (t2, x2)]);
    assert(s2.skip(1) =~= seq![(t2, x2)]);
    assert(s2.skip(1).skip(1) =~= Seq::<(u64, T)>::empty());
    assert(split_point(s2, t3) == 2);
    let s3 = s2.insert(split_point(s2, t3), (t3, x3));
    assert(s3 =~= seq![(t1, x1), (t2, x2), (t3, x3)]);
    assert(s3.skip(1) =~= seq![(t2, x2), (t3, x3)]);
    assert(split_point(s3, now1) == 1);
    let left = s3.skip(split_point(s3, now1));
    assert(left =~= seq![(t2, x2), (t3, x3)]);
    assert(left.skip(1) =~= seq![(t3, x3)]);
    assert(left.skip(1).skip(1) =~= Seq::<(u64, T)>::empty());
    assert(split_point(left, now2) == 2);
    assert(s3.take(1) =~= seq![(t1, x1)]);
    assert(left.take(2) =~= seq![(t2, x2), (t3, x3)]);
    assert(left.skip(2) =~= Seq::<(u64, T)>::empty());
}

/// A timer set with nothing scheduled has no cached wake-up, so the
/// embedding's wait on it never resolves.
pub proof fn lemma_empty_never_wakes<T>(t: Timers<T>)
    requires
        t.wf(),
        t.entries().len() == 0,
    ensures
        t.cached() is None,
{
}

} // verus!
