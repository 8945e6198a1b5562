//! The route cache: which endpoint hosts which partition.
//!
//! Keys are partition ids, as the partition strategy derives them from a
//! table name and a row key. A cached route expires lazily after its
//! time-to-live; a miss or an expired entry triggers one metadata refresh,
//! and concurrent misses for the same partition coalesce onto it: while a
//! refresh is in flight, later misses await it instead of starting another.

use vstd::prelude::*;

verus! {

/// One cached route.
#[derive(Clone, Copy, PartialEq, Eq, Structural, Debug)]
pub struct RouteEntry {
    pub partition: u64,
    pub endpoint: usize,
    pub version: u64,
    pub expires_at: u64,
}

/// What a lookup tells its caller to do.
#[derive(Clone, Copy, PartialEq, Eq, Structural, Debug)]
pub enum LookupOutcome {
    /// A live route: use this endpoint.
    Hit(usize),
    /// Someone else is already refreshing this partition: await them.
    MustAwait,
    /// This caller starts the one refresh for this partition.
    StartRefresh,
}

/// Maps partitions to the endpoints hosting them.
pub struct RouteCache {
    entries: Vec<RouteEntry>,
    inflight: Vec<u64>,
}

/// The first cached route of `p`.
pub open spec fn spec_entry(s: Seq<RouteEntry>, p: u64) -> Option<RouteEntry>
    decreases s.len(),
{
    if s.len() == 0 {
        None
    } else if s[0].partition == p {
        Some(s[0])
    } else {
        spec_entry(s.skip(1), p)
    }
}

/// Skipping other partitions' routes does not change which one is found.
proof fn lemma_entry_advance(s: Seq<RouteEntry>, p: u64, i: int)
    requires
        0 <= i <= s.len(),
        forall|j: int| 0 <= j < i ==> s[j].partition != p,
    ensures
        spec_entry(s, p) == spec_entry(s.skip(i), p),
    decreases i,
{
    if i > 0 {
        assert forall|j: int| 0 <= j < i - 1 implies s.skip(1)[j].partition != p by {
            assert(s.skip(1)[j] == s[j + 1]);
        }
        lemma_entry_advance(s.skip(1), p, i - 1);
        assert(s.skip(1).skip(i - 1) =~= s.skip(i));
    } else {
        assert(s.skip(0) =~= s);
    }
}

impl RouteCache {
    pub closed spec fn spec_entries(self) -> Seq<RouteEntry> {
        self.entries@
    }

    pub closed spec fn spec_inflight(self) -> Seq<u64> {
        self.inflight@
    }

    /// One route per partition, one in-flight refresh per partition.
    pub closed spec fn wf(self) -> bool {
        &&& forall|i: int, j: int|
            0 <= i < j < self.entries@.len() ==> self.entries@[i].partition
                != self.entries@[j].partition
        &&& forall|i: int, j: int|
            0 <= i < j < self.inflight@.len() ==> self.inflight@[i] != self.inflight@[j]
    }

    /// What a lookup at `now` answers on this cache.
    pub open spec fn spec_outcome(self, p: u64, now: u64) -> LookupOutcome {
        match spec_entry(self.spec_entries(), p) {
            Some(e) => if now < e.expires_at {
                LookupOutcome::Hit(e.endpoint)
            } else if self.spec_inflight().contains(p) {
                LookupOutcome::MustAwait
            } else {
                LookupOutcome::StartRefresh
            },
            None => if self.spec_inflight().contains(p) {
                LookupOutcome::MustAwait
            } else {
                LookupOutcome::StartRefresh
            },
        }
    }

    /// An empty cache with no refresh in flight.
    pub fn new() -> (c: RouteCache)
        ensures
            c.wf(),
            c.spec_entries().len() == 0,
            c.spec_inflight().len() == 0,
    {
        RouteCache { entries: Vec::new(), inflight: Vec::new() }
    }

    /// Looks the partition up at time `now`. A live route answers with its
    /// endpoint. Otherwise the partition needs a refresh: the first caller
    /// is told to start it and is recorded as its owner; callers arriving
    /// while it is in flight are told to await it.
    pub fn lookup(&mut self, p: u64, now: u64) -> (r: LookupOutcome)
        requires
            old(self).wf(),
        ensures
            final(self).wf(),
            r == old(self).spec_outcome(p, now),
            final(self).spec_entries() == old(self).spec_entries(),
            r is StartRefresh ==> final(self).spec_inflight() == old(self).spec_inflight().push(p),
            !(r is StartRefresh) ==> *final(self) == *old(self),
            final(self).spec_inflight().contains(p) == (old(self).spec_inflight().contains(p) || r
                is StartRefresh),
    {
        let n = self.entries.len();
        let mut i: usize = 0;
        while i < n
            invariant
                old(self).wf(),
                *self == *old(self),
                n == self.entries@.len(),
                i <= n,
                forall|j: int| 0 <= j < i ==> self.entries@[j].partition != p,
            decreases n - i,
        {
            if self.entries[i].partition == p {
                proof {
                    lemma_entry_advance(self.entries@, p, i as int);
                    assert(self.entries@.skip(i as int)[0] == self.entries@[i as int]);
                }
                if now < self.entries[i].expires_at {
                    return LookupOutcome::Hit(self.entries[i].endpoint);
                }
                return self.miss(p);
            }
            i += 1;
        }
        proof {
            lemma_entry_advance(self.entries@, p, n as int);
            assert(self.entries@.skip(n as int).len() == 0);
        }
        self.miss(p)
    }

    /// Records a miss: await the in-flight refresh or become its owner.
    fn miss(&mut self, p: u64) -> (r: LookupOutcome)
        requires
            old(self).wf(),
        ensures
            final(self).wf(),
            final(self).spec_entries() == old(self).spec_entries(),
            old(self).spec_inflight().contains(p) ==> r == LookupOutcome::MustAwait
                && *final(self) == *old(self),
            !old(self).spec_inflight().contains(p) ==> r == LookupOutcome::StartRefresh && final(self).spec_inflight() == old(self).spec_inflight().push(p),
            final(self).spec_inflight().contains(p),
    {
        let n = self.inflight.len();
        let mut i: usize = 0;
        while i < n
            invariant
                old(self).wf(),
                *self == *old(self),
                n == self.inflight@.len(),
                i <= n,
                forall|j: int| 0 <= j < i ==> self.inflight@[j] != p,
            decreases n - i,
        {
            if self.inflight[i] == p {
                proof {
                    assert(self.inflight@.contains(p));
                }
                return LookupOutcome::MustAwait;
            }
            i += 1;
        }
        proof {
            if self.inflight@.contains(p) {
                let w = choose|w: int| 0 <= w < self.inflight@.len() && self.inflight@[w] == p;
                assert(self.inflight@[w] != p);
            }
        }
        let ghost pre = self.inflight@;
        self.inflight.push(p);
        proof {
            assert forall|j: int|
                0 <= j < self.inflight@.len() implies #[trigger] self.inflight@[j] == (if j
                < pre.len() {
                pre[j]
            } else {
                p
            }) by {
                assert(self.inflight@[j] == pre.push(p)[j]);
            }
            assert(self.inflight@[pre.len() as int] == p);
        }
        LookupOutcome::StartRefresh
    }

    /// Installs what a refresh brought back and releases its owners: the
    /// route is replaced only by one of at least its version, so a lookup
    /// never sees the version go backwards.
    pub fn install(&mut self, p: u64, endpoint: usize, version: u64, expires_at: u64)
        requires
            old(self).wf(),
        ensures
            final(self).wf(),
            !final(self).spec_inflight().contains(p),
            forall|q: u64|
                q != p ==> final(self).spec_inflight().contains(q) == old(self).spec_inflight().contains(q),
            match spec_entry(old(self).spec_entries(), p) {
                Some(e) => {
                    if version >= e.version {
                        spec_entry(final(self).spec_entries(), p) == Some(
                            RouteEntry { partition: p, endpoint, version, expires_at },
                        )
                    } else {
                        spec_entry(final(self).spec_entries(), p) == Some(e)
                    }
                },
                None => spec_entry(final(self).spec_entries(), p) == Some(
                    RouteEntry { partition: p, endpoint, version, expires_at },
                ),
            },
            match spec_entry(final(self).spec_entries(), p) {
                Some(e2) => e2.version >= version || (spec_entry(old(self).spec_entries(), p)
                    matches Some(e) && e2.version >= e.version),
                None => false,
            },
            forall|q: u64|
                q != p ==> #[trigger] spec_entry(final(self).spec_entries(), q) == spec_entry(
                    old(self).spec_entries(),
                    q,
                ),
    {
        self.release(p);
        let n = self.entries.len();
        let mut i: usize = 0;
        while i < n
            invariant
                old(self).wf(),
                self.entries@ == old(self).entries@,
                forall|i2: int, j2: int|
                    0 <= i2 < j2 < self.inflight@.len() ==> self.inflight@[i2]
                        != self.inflight@[j2],
                !self.inflight@.contains(p),
                forall|q: u64|
                    q != p ==> self.inflight@.contains(q) == old(self).inflight@.contains(q),
                n == self.entries@.len(),
                i <= n,
                forall|j: int| 0 <= j < i ==> self.entries@[j].partition != p,
            decreases n - i,
        {
            if self.entries[i].partition == p {
                proof {
                    lemma_entry_advance(self.entries@, p, i as int);
                    assert(self.entries@.skip(i as int)[0] == self.entries@[i as int]);
                }
                if version >= self.entries[i].version {
                    let ghost pre = self.entries@;
                    self.entries[i] = RouteEntry { partition: p, endpoint, version, expires_at };
                    proof {
                        assert forall|j: int|
                            0 <= j < self.entries@.len() implies #[trigger] self.entries@[j] == (
                        if j == i {
                            RouteEntry { partition: p, endpoint, version, expires_at }
                        } else {
                            pre[j]
                        }) by {
                            assert(self.entries@[j] == pre.update(i as int, self.entries@[i as int])[j]);
                        }
                        lemma_entry_advance(self.entries@, p, i as int);
                        assert(self.entries@.skip(i as int)[0] == self.entries@[i as int]);
                        assert forall|q: u64|
                            q != p implies #[trigger] spec_entry(self.entries@, q) == spec_entry(
                            pre,
                            q,
                        ) by {
                            lemma_entry_update_other(pre, i as int, self.entries@[i as int], q);
                            assert(self.entries@ =~= pre.update(i as int, self.entries@[i as int]));
                        }
                    }
                }
                return ;
            }
            i += 1;
        }
        proof {
            lemma_entry_advance(self.entries@, p, n as int);
            assert(self.entries@.skip(n as int).len() == 0);
        }
        let ghost pre = self.entries@;
        self.entries.push(RouteEntry { partition: p, endpoint, version, expires_at });
        proof {
            assert forall|j: int|
                0 <= j < self.entries@.len() implies #[trigger] self.entries@[j] == (if j
                < pre.len() {
                pre[j]
            } else {
                RouteEntry { partition: p, endpoint, version, expires_at }
            }) by {
                assert(self.entries@[j] == pre.push(
                    RouteEntry { partition: p, endpoint, version, expires_at },
                )[j]);
            }
            lemma_entry_advance(self.entries@, p, pre.len() as int);
            assert(self.entries@.skip(pre.len() as int)[0] == self.entries@[pre.len() as int]);
            assert forall|q: u64|
                q != p implies #[trigger] spec_entry(self.entries@, q) == spec_entry(pre, q) by {
                lemma_entry_push_other(
                    pre,
                    RouteEntry { partition: p, endpoint, version, expires_at },
                    q,
                );
                assert(self.entries@ =~= pre.push(
                    RouteEntry { partition: p, endpoint, version, expires_at },
                ));
            }
        }
    }

    /// Forgets the in-flight refresh of `p`, if any.
    fn release(&mut self, p: u64)
        requires
            old(self).wf(),
        ensures
            final(self).wf(),
            final(self).spec_entries() == old(self).spec_entries(),
            !final(self).spec_inflight().contains(p),
            forall|q: u64|
                q != p ==> final(self).spec_inflight().contains(q) == old(self).spec_inflight().contains(q),
    {
        let n = self.inflight.len();
        let mut i: usize = 0;
        while i < n
            invariant
                old(self).wf(),
                *self == *old(self),
                n == self.inflight@.len(),
                i <= n,
                forall|j: int| 0 <= j < i ==> self.inflight@[j] != p,
            decreases n - i,
        {
            if self.inflight[i] == p {
                let ghost pre = self.inflight@;
                self.inflight.remove(i);
                proof {
                    assert forall|j: int|
                        0 <= j < self.inflight@.len() implies #[trigger] self.inflight@[j] == (
                    if j < i {
                        pre[j]
                    } else {
                        pre[j + 1]
                    }) by {
                        assert(self.inflight@[j] == pre.remove(i as int)[j]);
                    }
                    if self.inflight@.contains(p) {
                        let w = choose|w: int|
                            0 <= w < self.inflight@.len() && self.inflight@[w] == p;
                        if w < i {
                            assert(pre[w] == p);
                        } else {
                            assert(pre[w + 1] == p && pre[i as int] == p);
                        }
                    }
                    assert forall|q: u64|
                        q != p implies self.inflight@.contains(q) == pre.contains(q) by {
                        if pre.contains(q) {
                            let w = choose|w: int| 0 <= w < pre.len() && pre[w] == q;
                            if w < i {
                                assert(self.inflight@[w] == q);
                            } else {
                                assert(w != i);
                                assert(self.inflight@[w - 1] == q);
                            }
                        }
                        if self.inflight@.contains(q) {
                            let w = choose|w: int|
                                0 <= w < self.inflight@.len() && self.inflight@[w] == q;
                            if w < i {
                                assert(pre[w] == q);
                            } else {
                                assert(pre[w + 1] == q);
                            }
                        }
                    }
                }
                return ;
            }
            i += 1;
        }
        proof {
            if self.inflight@.contains(p) {
                let w = choose|w: int| 0 <= w < self.inflight@.len() && self.inflight@[w] == p;
                assert(self.inflight@[w] != p);
            }
        }
    }

    /// Drops the cached route of `p`: the server said it moved.
    pub fn invalidate(&mut self, p: u64)
        requires
            old(self).wf(),
        ensures
            final(self).wf(),
            spec_entry(final(self).spec_entries(), p) is None,
            forall|q: u64|
                q != p ==> #[trigger] spec_entry(final(self).spec_entries(), q) == spec_entry(
                    old(self).spec_entries(),
                    q,
                ),
            final(self).spec_inflight() == old(self).spec_inflight(),
    {
        let n = self.entries.len();
        let mut i: usize = 0;
        while i < n
            invariant
                old(self).wf(),
                *self == *old(self),
                n == self.entries@.len(),
                i <= n,
                forall|j: int| 0 <= j < i ==> self.entries@[j].partition != p,
            decreases n - i,
        {
            if self.entries[i].partition == p {
                let ghost pre = self.entries@;
                self.entries.remove(i);
                proof {
                    assert forall|j: int|
                        0 <= j < self.entries@.len() implies #[trigger] self.entries@[j] == (
                    if j < i {
                        pre[j]
                    } else {
                        pre[j + 1]
                    }) by {
                        assert(self.entries@[j] == pre.remove(i as int)[j]);
                    }
                    assert forall|j: int|
                        0 <= j < self.entries@.len() implies self.entries@[j].partition != p by {
                        if j < i {
                        } else {
                            assert(pre[j + 1].partition != p || j + 1 == i);
                        }
                    }
                    lemma_entry_advance(self.entries@, p, self.entries@.len() as int);
                    assert(self.entries@.skip(self.entries@.len() as int).len() == 0);
                    assert forall|q: u64|
                        q != p implies #[trigger] spec_entry(self.entries@, q) == spec_entry(
                        pre,
                        q,
                    ) by {
                        lemma_entry_remove_other(pre, p, i as int, q);
                        assert(self.entries@ =~= pre.subrange(0, i as int) + pre.skip(i as int + 1));
                    }
                }
                return ;
            }
            i += 1;
        }
        proof {
            lemma_entry_advance(self.entries@, p, n as int);
            assert(self.entries@.skip(n as int).len() == 0);
        }
    }
}

/// Replacing the route at `i` in place does not move other partitions'.
proof fn lemma_entry_update_other(s: Seq<RouteEntry>, i: int, e: RouteEntry, q: u64)
    requires
        0 <= i < s.len(),
        e.partition == s[i].partition,
        q != e.partition,
    ensures
        spec_entry(s.update(i, e), q) == spec_entry(s, q),
    decreases s.len(),
{
    if i == 0 {
        assert(s.update(0, e).skip(1) =~= s.skip(1));
    } else {
        assert(s.update(i, e).skip(1) =~= s.skip(1).update(i - 1, e));
        assert(s.skip(1)[i - 1] == s[i]);
        lemma_entry_update_other(s.skip(1), i - 1, e, q);
    }
}

/// A fresh route at the end does not move other partitions'.
proof fn lemma_entry_push_other(s: Seq<RouteEntry>, e: RouteEntry, q: u64)
    requires
        q != e.partition,
    ensures
        spec_entry(s.push(e), q) == spec_entry(s, q),
    decreases s.len(),
{
    if s.len() == 0 {
        assert(s.push(e)[0] == e);
        let t = s.push(e).skip(1);
        assert(t =~= Seq::<RouteEntry>::empty());
        assert(spec_entry(t, q) is None);
        assert(spec_entry(s.push(e), q) == spec_entry(t, q));
        assert(spec_entry(s, q) is None);
    } else {
        assert(s.push(e)[0] == s[0]);
        assert(s.push(e).skip(1) =~= s.skip(1).push(e));
        lemma_entry_push_other(s.skip(1), e, q);
    }
}

/// Dropping `p`'s route does not move other partitions'.
proof fn lemma_entry_remove_other(s: Seq<RouteEntry>, p: u64, i: int, q: u64)
    requires
        0 <= i < s.len(),
        s[i].partition == p,
        forall|j: int| 0 <= j < i ==> s[j].partition != p,
        q != p,
    ensures
        spec_entry(s.subrange(0, i) + s.skip(i + 1), q) == spec_entry(s, q),
    decreases i,
{
    let out = s.subrange(0, i) + s.skip(i + 1);
    if i == 0 {
        assert(out =~= s.skip(1));
    } else {
        assert(out[0] == s[0]);
        assert(out.skip(1) =~= s.skip(1).subrange(0, i - 1) + s.skip(1).skip(i));
        assert(s.skip(1).subrange(0, i - 1) =~= s.subrange(1, i));
        assert(s.skip(1).skip(i) =~= s.skip(i + 1));
        assert(s.skip(1)[i - 1] == s[i]);
        assert forall|j: int| 0 <= j < i - 1 implies s.skip(1)[j].partition != p by {
            assert(s.skip(1)[j] == s[j + 1]);
        }
        lemma_entry_remove_other(s.skip(1), p, i - 1, q);
    }
}

/// Singleflight: once one caller has been told to start the refresh of a
/// partition, every further miss of that partition awaits it instead of
/// starting another, until the refresh installs its result. So under any
/// number of concurrent misses for one partition, exactly one metadata
/// request goes out.
pub proof fn lemma_route_singleflight(c0: RouteCache, c1: RouteCache, p: u64, now0: u64, now1: u64)
    requires
        c0.wf(),
        c0.spec_outcome(p, now0) is StartRefresh,
        c1.spec_entries() == c0.spec_entries(),
        c1.spec_inflight() == c0.spec_inflight().push(p),
    ensures
        !(c1.spec_outcome(p, now1) is StartRefresh),
{
    assert(c1.spec_inflight()[c1.spec_inflight().len() - 1] == p);
    assert(c1.spec_inflight().contains(p));
}

} // verus!
