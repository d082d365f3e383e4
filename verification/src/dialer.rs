//! Bookkeeping for concurrent outbound connection attempts.
//!
//! A [`Dialer`] tracks, per peer, whether a dial is pending, and keeps
//! a record of every attempt still in flight.  The asynchronous work —
//! racing the connect operation against a cancellation signal and
//! waiting for whichever attempt finishes first — is run by the
//! embedding, which asks [`Dialer::queue_dial`] whether an attempt must
//! be started and reports each finished attempt back through
//! [`Dialer::resolve_attempt`].
//!
//! Peers are identified by plain `u64` handles; the embedding maps its
//! own peer identifiers onto them.
//!
//! Cancellation through [`Dialer::abort_dial`] drops the peer from the
//! pending set at once, but the attempt itself stays in flight until
//! it resolves; its eventual completion is reported as not pending and
//! discarded by the caller.

use vstd::prelude::*;

verus! {

/// How often `x` occurs in `s`.
pub open spec fn occurrences(s: Seq<u64>, x: u64) -> nat {
    s.to_multiset().count(x)
}

/// The pending set and attempt record after a dial request for `peer`:
/// a no-op if the peer is already pending, otherwise one new pending
/// entry and one new in-flight attempt.
pub open spec fn queued(pending: Seq<u64>, attempts: Seq<u64>, peer: u64) -> (Seq<u64>, Seq<u64>) {
    if pending.contains(peer) {
        (pending, attempts)
    } else {
        (pending.push(peer), attempts.push(peer))
    }
}

/// Tracks which peers have a dial pending and which attempts are still
/// in flight (an aborted attempt stays in flight until it resolves).
pub struct Dialer {
    pending_peers: Vec<u64>,
    attempts: Vec<u64>,
}

impl Dialer {
    /// The peers with a pending, not yet resolved and not aborted, dial.
    pub closed spec fn pending(self) -> Seq<u64> {
        self.pending_peers@
    }

    /// The peers of the attempts still in flight, one entry per attempt.
    pub closed spec fn attempts(self) -> Seq<u64> {
        self.attempts@
    }

    /// Invariant: at most one pending entry per peer, and every pending
    /// peer has an attempt in flight.
    pub open spec fn wf(self) -> bool {
        &&& self.pending().no_duplicates()
        &&& forall|i: int|
            0 <= i < self.pending().len() ==> self.attempts().contains(
                #[trigger] self.pending()[i],
            )
    }

    /// A dialer with no pending dials and no attempts in flight.
    pub fn new() -> (r: Dialer)
        ensures
            r.wf(),
            r.pending() == Seq::<u64>::empty(),
            r.attempts() == Seq::<u64>::empty(),
    {
        Dialer { pending_peers: Vec::new(), attempts: Vec::new() }
    }

    /// Whether `peer` currently has a pending dial.
    pub fn is_pending(&self, peer: u64) -> (r: bool)
        ensures
            r == self.pending().contains(peer),
    {
        index_of(&self.pending_peers, peer).is_some()
    }

    /// Whether any dial is pending.  When this is false, the
    /// embedding's wait for the next completed dial suspends forever:
    /// an empty dialer never produces a completion.
    pub fn has_pending(&self) -> (r: bool)
        ensures
            r == (self.pending().len() > 0),
    {
        self.pending_peers.len() > 0
    }

    /// Request a dial to `peer`.  If one is already pending this is a
    /// no-op; otherwise the peer becomes pending and one new attempt is
    /// recorded.  Returns whether the embedding must start the attempt
    /// (the connect operation raced against a cancellation signal).
    pub fn queue_dial(&mut self, peer: u64) -> (started: bool)
        requires
            old(self).wf(),
        ensures
            final (self).wf(),
            started == !old(self).pending().contains(peer),
            final (self).pending().contains(peer),
            (final (self).pending(), final (self).attempts()) == queued(
                old(self).pending(),
                old(self).attempts(),
                peer,
            ),
            !started ==> *final (self) == *old(self),
    {
        if index_of(&self.pending_peers, peer).is_some() {
            return false;
        }
        self.pending_peers.push(peer);
        self.attempts.push(peer);
        proof {
            assert(self.pending()[old(self).pending().len() as int] == peer);
            let p0 = old(self).pending();
            let a0 = old(self).attempts();
            assert(self.pending() == p0.push(peer));
            assert(self.pending().no_duplicates()) by {
                assert forall|x: int, y: int|
                    0 <= x < y < self.pending().len() implies #[trigger] self.pending()[x]
                    != #[trigger] self.pending()[y] by {
                    if y == p0.len() {
                        if p0[x] == peer {
                            assert(p0.contains(peer));
                        }
                    }
                }
            }
            assert forall|k: int|
                0 <= k < self.pending().len() implies self.attempts().contains(
                #[trigger] self.pending()[k],
            ) by {
                if k < p0.len() {
                    assert(self.pending()[k] == p0[k]);
                    assert(a0.contains(p0[k]));
                    let j = choose|j: int| 0 <= j < a0.len() && a0[j] == p0[k];
                    assert(self.attempts()[j] == p0[k]);
                } else {
                    assert(self.attempts()[a0.len() as int] == peer);
                }
            }
        }
        true
    }

    /// Abort the pending dial to `peer`, if any: the peer leaves the
    /// pending set at once (the embedding signals cancellation), but
    /// its attempt stays in flight until it resolves.  On a peer with
    /// no pending dial this is a no-op, and either way the peer is not
    /// pending afterwards.
    pub fn abort_dial(&mut self, peer: u64) -> (aborted: bool)
        requires
            old(self).wf(),
        ensures
            final (self).wf(),
            aborted == old(self).pending().contains(peer),
            final (self).pending() == old(self).pending().remove_value(peer),
            final (self).attempts() == old(self).attempts(),
            !final (self).pending().contains(peer),
            aborted ==> final (self).pending().len() == old(self).pending().len() - 1,
            !aborted ==> *final (self) == *old(self),
    {
        let ghost s = old(self).pending();
        match index_of(&self.pending_peers, peer) {
            Some(i) => {
                self.pending_peers.remove(i);
                proof {
                    s.index_of_first_ensures(peer);
                    s.remove_ensures(i as int);
                    assert(s.index_of_first(peer) == Some(i as int)) by {
                        match s.index_of_first(peer) {
                            Some(j) => {
                                if j < i {
                                    assert(s[j] != peer);
                                } else if j > i {
                                    assert(s[i as int] != peer);
                                }
                            },
                            None => {
                                assert(s[i as int] == peer);
                            },
                        }
                    }
                    assert(self.pending() == s.remove_value(peer));
                    assert(!self.pending().contains(peer)) by {
                        if self.pending().contains(peer) {
                            let j = choose|j: int|
                                0 <= j < self.pending().len() && self.pending()[j] == peer;
                            if j < i {
                                assert(self.pending()[j] == s[j]);
                                assert(s[j] != peer);
                            } else {
                                assert(self.pending()[j] == s[j + 1]);
                                assert(s[i as int] == peer);
                                assert(s[j + 1] != s[i as int]);
                            }
                        }
                    }
                    assert(self.pending().no_duplicates()) by {
                        assert forall|x: int, y: int|
                            0 <= x < y < self.pending().len() implies #[trigger] self.pending()[x]
                            != #[trigger] self.pending()[y] by {
                            let x0: int = if x < i { x } else { x + 1 };
                            let y0: int = if y < i { y } else { y + 1 };
                            assert(self.pending()[x] == s[x0]);
                            assert(self.pending()[y] == s[y0]);
                            assert(s[x0] != s[y0]);
                        }
                    }
                    assert forall|k: int|
                        0 <= k < self.pending().len() implies self.attempts().contains(
                        #[trigger] self.pending()[k],
                    ) by {
                        let k0: int = if k < i { k } else { k + 1 };
                        assert(self.pending()[k] == s[k0]);
                        assert(old(self).attempts().contains(old(self).pending()[k0]));
                    }
                }
                true
            },
            None => {
                proof {
                    s.index_of_first_ensures(peer);
                }
                false
            },
        }
    }

    /// Report that the attempt for `peer` has resolved (with a
    /// connection, a connect failure, or a cancellation).  The attempt
    /// is no longer in flight, the peer is no longer pending, and the
    /// returned flag says whether it still was pending — when it was
    /// not, the dial had been aborted and the caller discards the
    /// result.
    pub fn resolve_attempt(&mut self, peer: u64) -> (was_pending: bool)
        requires
            old(self).wf(),
            old(self).attempts().contains(peer),
        ensures
            final (self).wf(),
            was_pending == old(self).pending().contains(peer),
            final (self).pending() == old(self).pending().remove_value(peer),
            final (self).attempts() == old(self).attempts().remove_value(peer),
            final (self).attempts().len() == old(self).attempts().len() - 1,
            !final (self).pending().contains(peer),
            was_pending ==> final (self).pending().len() == old(self).pending().len() - 1,
            !was_pending ==> final (self).pending() == old(self).pending(),
    {
        let ghost a = old(self).attempts();
        let was_pending = self.abort_dial(peer);
        let ghost p = self.pending();
        match index_of(&self.attempts, peer) {
            Some(i) => {
                self.attempts.remove(i);
                proof {
                    a.index_of_first_ensures(peer);
                    a.remove_ensures(i as int);
                    assert(a.index_of_first(peer) == Some(i as int)) by {
                        match a.index_of_first(peer) {
                            Some(j) => {
                                if j < i {
                                    assert(a[j] != peer);
                                } else if j > i {
                                    assert(a[i as int] != peer);
                                }
                            },
                            None => {
                                assert(a[i as int] == peer);
                            },
                        }
                    }
                    assert(self.attempts() == a.remove_value(peer));
                    assert forall|k: int|
                        0 <= k < self.pending().len() implies self.attempts().contains(
                        #[trigger] self.pending()[k],
                    ) by {
                        let q = self.pending()[k];
                        assert(q != peer) by {
                            assert(self.pending()[k] == q);
                        }
                        assert(a.contains(q)) by {
                            assert(p[k] == q);
                        }
                        let j = choose|j: int| 0 <= j < a.len() && a[j] == q;
                        if j < i {
                            assert(self.attempts()[j] == a[j]);
                        } else {
                            assert(j != i);
                            assert(self.attempts()[j - 1] == a[j]);
                        }
                    }
                }
            },
            None => {
                proof {
                    assert(false);
                }
            },
        }
        was_pending
    }
}

/// Index of the first occurrence of `x` in `v`, if it occurs at all.
fn index_of(v: &Vec<u64>, x: u64) -> (r: Option<usize>)
    ensures
        match r {
            Some(i) => 0 <= i < v@.len() && v@[i as int] == x && forall|k: int|
                0 <= k < i ==> v@[k] != x,
            None => !v@.contains(x),
        },
{
    let mut i: usize = 0;
    while i < v.len()
        invariant
            0 <= i <= v@.len(),
            forall|k: int| 0 <= k < i ==> v@[k] != x,
        decreases v@.len() - i,
    {
        if v[i] == x {
            return Some(i);
        }
        i = i + 1;
    }
    None
}

/// Requesting a dial twice before either resolves yields exactly one
/// pending entry and exactly one new in-flight attempt — so exactly
/// one completion will eventually surface: the second request is a
/// no-op.
pub proof fn lemma_queue_dial_dedup(pending: Seq<u64>, attempts: Seq<u64>, peer: u64)
    requires
        pending.no_duplicates(),
        !pending.contains(peer),
    ensures
        ({
            let (p1, a1) = queued(pending, attempts, peer);
            let (p2, a2) = queued(p1, a1, peer);
            &&& p2 == p1 && a2 == a1
            &&& occurrences(p1, peer) == 1
            &&& occurrences(a1, peer) == occurrences(attempts, peer) + 1
        }),
{
    let (p1, a1) = queued(pending, attempts, peer);
    assert(p1.contains(peer)) by {
        assert(p1[p1.len() - 1] == peer);
    }
    pending.to_multiset_ensures();
    attempts.to_multiset_ensures();
    assert(occurrences(pending, peer) == 0) by {
        if pending.to_multiset().count(peer) > 0 {
            assert(pending.contains(peer));
        }
    }
    assert(p1.to_multiset() == pending.to_multiset().insert(peer));
    assert(a1.to_multiset() == attempts.to_multiset().insert(peer));
}

/// With no dial pending there is nothing to wait for: no peer is
/// pending, so the embedding suspends instead of polling attempts —
/// its wait for the next completed dial never resolves — and any
/// stale attempt that resolves meanwhile is reported as not pending
/// and leaves the (empty) pending set unchanged.
pub proof fn lemma_empty_pending_never_completes(pending: Seq<u64>, peer: u64)
    requires
        pending.len() == 0,
    ensures
        !pending.contains(peer),
        pending.remove_value(peer) == pending,
{
    pending.index_of_first_ensures(peer);
}

/// Aborting a dial for a peer with nothing pending changes nothing,
/// and the peer is not pending immediately afterwards.
pub proof fn lemma_abort_non_pending(pending: Seq<u64>, peer: u64)
    requires
        !pending.contains(peer),
    ensures
        pending.remove_value(peer) == pending,
        !pending.remove_value(peer).contains(peer),
{
    pending.index_of_first_ensures(peer);
}

} // verus!
