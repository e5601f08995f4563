//! A bounded cache whose entries expire after a fixed time to live.
//!
//! Eviction is first-in-first-out with refresh: every insert and every
//! refresh appends a `(key, timestamp)` record to a queue; when the table is
//! full, records are popped from the front until one still matches its live
//! entry, and that entry is removed. Records left behind by a refresh are
//! stale and are skipped.
use vstd::prelude::*;
use std::collections::VecDeque;

verus! {

/// One live entry of the table.
pub struct Slot<V> {
    pub key: String,
    pub value: V,
    /// When the entry was inserted or last refreshed.
    pub at: u64,
}

/// Time since `at`, or zero when the clock reads earlier than `at`.
pub open spec fn elapsed(now: u64, at: u64) -> nat {
    if now >= at {
        (now - at) as nat
    } else {
        0
    }
}

/// An entry stamped `at` is fresh at `now` while less than `ttl` has passed.
pub open spec fn is_fresh(now: u64, at: u64, ttl: u64) -> bool {
    elapsed(now, at) < ttl
}

/// The most entries a table of this capacity holds: the capacity, and one
/// for a zero capacity (an insert always stores its entry).
pub open spec fn bound(capacity: usize) -> nat {
    if capacity == 0 {
        1
    } else {
        capacity as nat
    }
}

pub open spec fn queue_view(q: Seq<(String, u64)>) -> Seq<(Seq<char>, u64)> {
    q.map_values(|p: (String, u64)| (p.0@, p.1))
}

/// What a reader sees under `k` at `now`: the value when its entry is fresh.
pub open spec fn lookup_spec<V>(t: Map<Seq<char>, (V, u64)>, k: Seq<char>, now: u64, ttl: u64) -> Option<V> {
    if t.contains_key(k) && is_fresh(now, t[k].1, ttl) {
        Some(t[k].0)
    } else {
        None
    }
}

/// Pops queue records from the front until one matches its live entry, and
/// removes that entry.
pub open spec fn evict_model<V>(t: Map<Seq<char>, (V, u64)>, q: Seq<(Seq<char>, u64)>) -> (Map<
    Seq<char>,
    (V, u64),
>, Seq<(Seq<char>, u64)>)
    decreases q.len(),
{
    if q.len() == 0 {
        (t, q)
    } else if t.contains_key(q[0].0) && t[q[0].0].1 == q[0].1 {
        (t.remove(q[0].0), q.drop_first())
    } else {
        evict_model(t, q.drop_first())
    }
}

/// An insert: evict first when the table is full, then store `(v, now)`
/// under `k` and queue its record.
pub open spec fn insert_model<V>(
    t: Map<Seq<char>, (V, u64)>,
    q: Seq<(Seq<char>, u64)>,
    capacity: usize,
    k: Seq<char>,
    v: V,
    now: u64,
) -> (Map<Seq<char>, (V, u64)>, Seq<(Seq<char>, u64)>) {
    let e = if t.len() >= capacity {
        evict_model(t, q)
    } else {
        (t, q)
    };
    (e.0.insert(k, (v, now)), e.1.push((k, now)))
}

/// A bounded table from string keys to values with a time to live.
pub struct TtlCache<V> {
    slots: Vec<Slot<V>>,
    queue: VecDeque<(String, u64)>,
    capacity: usize,
    ttl: u64,
    table: Ghost<Map<Seq<char>, (V, u64)>>,
}

impl<V> TtlCache<V> {
    /// The live entries: key to value and timestamp.
    pub closed spec fn table(&self) -> Map<Seq<char>, (V, u64)> {
        self.table@
    }

    /// The eviction queue, oldest record first.
    pub closed spec fn queue(&self) -> Seq<(Seq<char>, u64)> {
        queue_view(self.queue@)
    }

    pub closed spec fn capacity(&self) -> usize {
        self.capacity
    }

    pub closed spec fn ttl(&self) -> u64 {
        self.ttl
    }

    closed spec fn wf_slots(&self) -> bool {
        &&& self.table@.dom().finite()
        &&& self.slots@.len() == self.table@.len()
        &&& forall|i: int|
            0 <= i < self.slots@.len() ==> #[trigger] self.table@.contains_key(self.slots@[i].key@)
                && self.table@[self.slots@[i].key@] == (self.slots@[i].value, self.slots@[i].at)
        &&& forall|i: int, j: int|
            0 <= i < self.slots@.len() && 0 <= j < self.slots@.len() && i != j
                ==> #[trigger] self.slots@[i].key@ != #[trigger] self.slots@[j].key@
        &&& forall|k: Seq<char>|
            #[trigger] self.table@.contains_key(k) ==> exists|i: int|
                0 <= i < self.slots@.len() && #[trigger] self.slots@[i].key@ == k
    }

    /// Every live entry still has its own record in the queue.
    closed spec fn wf_queue(&self) -> bool {
        forall|k: Seq<char>|
            #[trigger] self.table@.contains_key(k) ==> exists|j: int|
                0 <= j < self.queue().len() && #[trigger] self.queue()[j] == (k, self.table@[k].1)
    }

    /// Well-formedness: the table is finite, never holds more than
    /// `bound(capacity)` entries, and every live entry can be evicted.
    pub closed spec fn wf(&self) -> bool {
        &&& self.wf_slots()
        &&& self.wf_queue()
        &&& self.table@.len() <= bound(self.capacity)
    }

    /// The table never holds more entries than the capacity allows.
    pub proof fn lemma_bounded(&self)
        requires
            self.wf(),
        ensures
            self.table().dom().finite(),
            self.table().len() <= bound(self.capacity()),
    {
    }

    /// An empty cache holding at most `capacity` entries (one when zero),
    /// each fresh for `ttl` time units.
    pub fn new(capacity: usize, ttl: u64) -> (r: Self)
        ensures
            r.wf(),
            r.table() == Map::<Seq<char>, (V, u64)>::empty(),
            r.queue() == Seq::<(Seq<char>, u64)>::empty(),
            r.capacity() == capacity,
            r.ttl() == ttl,
    {
        let r = TtlCache {
            slots: Vec::new(),
            queue: VecDeque::new(),
            capacity,
            ttl,
            table: Ghost(Map::empty()),
        };
        assert(r.queue() =~= Seq::<(Seq<char>, u64)>::empty());
        r
    }

    /// Number of entries held, fresh or not.
    pub fn len(&self) -> (r: usize)
        requires
            self.wf(),
        ensures
            r == self.table().len(),
    {
        self.slots.len()
    }

    fn find(&self, key: &String) -> (r: Option<usize>)
        requires
            self.wf_slots(),
        ensures
            match r {
                Some(i) => i < self.slots@.len() && self.slots@[i as int].key@ == key@,
                None => !self.table@.contains_key(key@),
            },
    {
        let mut i: usize = 0;
        while i < self.slots.len()
            invariant
                self.wf_slots(),
                i <= self.slots@.len(),
                forall|j: int| 0 <= j < i ==> self.slots@[j].key@ != key@,
            decreases self.slots@.len() - i,
        {
            if self.slots[i].key == *key {
                return Some(i);
            }
            i = i + 1;
        }
        None
    }

    /// The value under `key` if its entry is fresh at `now`. A stale entry
    /// reads as absent although it is still held.
    pub fn lookup(&self, key: &String, now: u64) -> (r: Option<&V>)
        requires
            self.wf(),
        ensures
            match r {
                Some(v) => lookup_spec(self.table(), key@, now, self.ttl()) == Some(*v),
                None => lookup_spec(self.table(), key@, now, self.ttl()) is None,
            },
    {
        match self.find(key) {
            None => None,
            Some(i) => {
                assert(self.table@.contains_key(self.slots@[i as int].key@));
                let at = self.slots[i].at;
                let fresh = if now >= at {
                    now - at < self.ttl
                } else {
                    0 < self.ttl
                };
                if fresh {
                    Some(&self.slots[i].value)
                } else {
                    None
                }
            },
        }
    }

    /// Refreshes the entry under `key`, if any: its timestamp becomes `now`
    /// and a new record is queued; the older record turns stale.
    pub fn touch(&mut self, key: &String, now: u64)
        requires
            old(self).wf(),
        ensures
            final(self).wf(),
            final(self).capacity() == old(self).capacity(),
            final(self).ttl() == old(self).ttl(),
            if old(self).table().contains_key(key@) {
                &&& final(self).table() == old(self).table().insert(
                    key@,
                    (old(self).table()[key@].0, now),
                )
                &&& final(self).queue() == old(self).queue().push((key@, now))
            } else {
                &&& final(self).table() == old(self).table()
                &&& final(self).queue() == old(self).queue()
            },
    {
        match self.find(key) {
            None => {},
            Some(i) => {
                let ghost t0 = self.table@;
                let ghost q0 = self.queue();
                self.slots[i].at = now;
                self.queue.push_back((key.clone(), now));
                self.table = Ghost(t0.insert(key@, (t0[key@].0, now)));
                assert(self.queue() =~= q0.push((key@, now)));
                assert(self.table@.dom() =~= t0.dom());
                assert forall|k: Seq<char>| #[trigger] self.table@.contains_key(k) implies exists|j: int|
                    0 <= j < self.queue().len() && #[trigger] self.queue()[j] == (k, self.table@[k].1) by {
                    if k == key@ {
                        assert(self.queue()[q0.len() as int] == (k, self.table@[k].1));
                    } else {
                        let j = choose|j: int| 0 <= j < q0.len() && #[trigger] q0[j] == (k, t0[k].1);
                        assert(self.queue()[j] == q0[j]);
                    }
                }
                assert forall|k: Seq<char>| #[trigger] self.table@.contains_key(k) implies exists|i2: int|
                    0 <= i2 < self.slots@.len() && #[trigger] self.slots@[i2].key@ == k by {
                    let i2 = choose|i2: int| 0 <= i2 < self.slots@.len() && #[trigger] old(self).slots@[i2].key@ == k;
                    assert(self.slots@[i2].key@ == k);
                }
            },
        }
    }
    fn evict(&mut self)
        requires
            old(self).wf_slots(),
            old(self).wf_queue(),
        ensures
            final(self).wf_slots(),
            final(self).wf_queue(),
            final(self).capacity == old(self).capacity,
            final(self).ttl == old(self).ttl,
            (final(self).table(), final(self).queue()) == evict_model(old(self).table(), old(self).queue()),
            old(self).table().len() > 0 ==> final(self).table().len() == old(self).table().len() - 1,
            old(self).table().len() == 0 ==> final(self).table().len() == 0,
    {
        let ghost t0 = self.table@;
        let ghost q0 = self.queue();
        loop
            invariant
                self.wf_slots(),
                self.wf_queue(),
                self.table@ == t0,
                t0 == old(self).table@,
                q0 == old(self).queue(),
                self.capacity == old(self).capacity,
                self.ttl == old(self).ttl,
                evict_model(t0, q0) == evict_model(self.table@, self.queue()),
            decreases self.queue@.len(),
        {
            let ghost qb = self.queue();
            match self.queue.pop_front() {
                None => {
                    if self.slots.len() > 0 {
                        let ghost k0 = self.slots@[0].key@;
                        assert(self.table@.contains_key(k0));
                        assert(false);
                    }
                    assert(qb.len() == 0);
                    assert(evict_model(self.table@, qb) == (self.table@, qb));
                    return;
                },
                Some(rec) => {
                    let (k, a) = rec;
                    assert(self.queue() =~= qb.drop_first());
                    assert(qb[0] == (k@, a));
                    let found = self.find(&k);
                    let hit = match found {
                        Some(i) => self.slots[i].at == a,
                        None => false,
                    };
                    if hit {
                        let i = found.unwrap();
                        let ghost sl = self.slots@;
                        assert(self.table@.contains_key(sl[i as int].key@));
                        assert(t0.contains_key(qb[0].0) && t0[qb[0].0].1 == qb[0].1);
                        assert(evict_model(t0, qb) == (t0.remove(k@), qb.drop_first()));
                        self.slots.remove(i);
                        self.table = Ghost(t0.remove(k@));
                        assert(t0.remove(k@).dom() =~= t0.dom().remove(k@));
                        assert(t0.remove(k@).len() == t0.len() - 1);
                        assert forall|i2: int| 0 <= i2 < self.slots@.len() implies #[trigger] self.slots@[i2]
                            == sl[if i2 < i { i2 } else { i2 + 1 }] by {}
                        assert forall|i2: int|
                            0 <= i2 < self.slots@.len() implies #[trigger] self.table@.contains_key(
                                self.slots@[i2].key@,
                            ) && self.table@[self.slots@[i2].key@] == (
                                self.slots@[i2].value,
                                self.slots@[i2].at,
                            ) by {
                            let o = if i2 < i { i2 } else { i2 + 1 };
                            assert(sl[o].key@ != sl[i as int].key@);
                            assert(t0.contains_key(sl[o].key@));
                        }
                        assert forall|i2: int, j2: int|
                            0 <= i2 < self.slots@.len() && 0 <= j2 < self.slots@.len() && i2 != j2
                                implies #[trigger] self.slots@[i2].key@ != #[trigger] self.slots@[j2].key@ by {
                            let o1 = if i2 < i { i2 } else { i2 + 1 };
                            let o2 = if j2 < i { j2 } else { j2 + 1 };
                            assert(sl[o1].key@ != sl[o2].key@);
                        }
                        assert forall|k2: Seq<char>| #[trigger] self.table@.contains_key(k2) implies exists|i2: int|
                            0 <= i2 < self.slots@.len() && #[trigger] self.slots@[i2].key@ == k2 by {
                            let o = choose|o: int| 0 <= o < sl.len() && #[trigger] sl[o].key@ == k2;
                            assert(o != i);
                            let n = if o < i { o } else { o - 1 };
                            assert(self.slots@[n].key@ == k2);
                        }
                        assert forall|k2: Seq<char>| #[trigger] self.table@.contains_key(k2) implies exists|j: int|
                            0 <= j < self.queue().len() && #[trigger] self.queue()[j] == (k2, self.table@[k2].1) by {
                            let j = choose|j: int| 0 <= j < qb.len() && #[trigger] qb[j] == (k2, t0[k2].1);
                            assert(j != 0);
                            assert(self.queue()[j - 1] == qb[j]);
                        }
                        return;
                    } else {
                        assert forall|k2: Seq<char>| #[trigger] self.table@.contains_key(k2) implies exists|j: int|
                            0 <= j < self.queue().len() && #[trigger] self.queue()[j] == (k2, self.table@[k2].1) by {
                            let j = choose|j: int| 0 <= j < qb.len() && #[trigger] qb[j] == (k2, t0[k2].1);
                            if j == 0 {
                                match found {
                                    Some(i) => {
                                        assert(self.table@.contains_key(self.slots@[i as int].key@));
                                    },
                                    None => {},
                                }
                                assert(false);
                            }
                            assert(self.queue()[j - 1] == qb[j]);
                        }
                        if let Some(i) = found {
                            assert(self.table@.contains_key(self.slots@[i as int].key@));
                        }
                    }
                },
            }
        }
    }

    /// Stores `value` under `key` with timestamp `now`. When the table is
    /// full, first evicts the oldest entry whose queue record is still
    /// current.
    pub fn insert(&mut self, key: String, value: V, now: u64)
        requires
            old(self).wf(),
        ensures
            final(self).wf(),
            final(self).capacity() == old(self).capacity(),
            final(self).ttl() == old(self).ttl(),
            (final(self).table(), final(self).queue()) == insert_model(
                old(self).table(),
                old(self).queue(),
                old(self).capacity(),
                key@,
                value,
                now,
            ),
    {
        if self.slots.len() >= self.capacity {
            self.evict();
        }
        let ghost t1 = self.table@;
        let ghost q1 = self.queue();
        let ghost kv = key@;
        let ghost vv = value;
        self.queue.push_back((key.clone(), now));
        assert(self.queue() =~= q1.push((kv, now)));
        let found = self.find(&key);
        let ghost sl = self.slots@;
        match found {
            Some(i) => {
                assert(t1.contains_key(sl[i as int].key@));
                self.slots[i] = Slot { key, value, at: now };
                self.table = Ghost(t1.insert(kv, (vv, now)));
                assert(self.table@.dom() =~= t1.dom());
                assert forall|k2: Seq<char>| #[trigger] self.table@.contains_key(k2) implies exists|i2: int|
                    0 <= i2 < self.slots@.len() && #[trigger] self.slots@[i2].key@ == k2 by {
                    if k2 != kv {
                        let o = choose|o: int| 0 <= o < sl.len() && #[trigger] sl[o].key@ == k2;
                        assert(self.slots@[o].key@ == k2);
                    } else {
                        assert(self.slots@[i as int].key@ == k2);
                    }
                }
                assert forall|i2: int|
                    0 <= i2 < self.slots@.len() implies #[trigger] self.table@.contains_key(
                        self.slots@[i2].key@,
                    ) && self.table@[self.slots@[i2].key@] == (
                        self.slots@[i2].value,
                        self.slots@[i2].at,
                    ) by {
                    if i2 != i {
                        assert(t1.contains_key(sl[i2].key@));
                    }
                }
            },
            None => {
                self.slots.push(Slot { key, value, at: now });
                self.table = Ghost(t1.insert(kv, (vv, now)));
                assert(self.table@.dom() =~= t1.dom().insert(kv));
                assert forall|k2: Seq<char>| #[trigger] self.table@.contains_key(k2) implies exists|i2: int|
                    0 <= i2 < self.slots@.len() && #[trigger] self.slots@[i2].key@ == k2 by {
                    if k2 != kv {
                        let o = choose|o: int| 0 <= o < sl.len() && #[trigger] sl[o].key@ == k2;
                        assert(self.slots@[o].key@ == k2);
                    } else {
                        assert(self.slots@[sl.len() as int].key@ == k2);
                    }
                }
                assert forall|i2: int|
                    0 <= i2 < self.slots@.len() implies #[trigger] self.table@.contains_key(
                        self.slots@[i2].key@,
                    ) && self.table@[self.slots@[i2].key@] == (
                        self.slots@[i2].value,
                        self.slots@[i2].at,
                    ) by {
                    if i2 < sl.len() {
                        assert(t1.contains_key(sl[i2].key@));
                    }
                }
                assert forall|i2: int, j2: int|
                    0 <= i2 < self.slots@.len() && 0 <= j2 < self.slots@.len() && i2 != j2
                        implies #[trigger] self.slots@[i2].key@ != #[trigger] self.slots@[j2].key@ by {
                    if i2 < sl.len() && j2 < sl.len() {
                    } else if i2 < sl.len() {
                        assert(t1.contains_key(sl[i2].key@));
                    } else {
                        assert(t1.contains_key(sl[j2].key@));
                    }
                }
            },
        }
        assert forall|k2: Seq<char>| #[trigger] self.table@.contains_key(k2) implies exists|j: int|
            0 <= j < self.queue().len() && #[trigger] self.queue()[j] == (k2, self.table@[k2].1) by {
            if k2 == kv {
                assert(self.queue()[q1.len() as int] == (k2, self.table@[k2].1));
            } else {
                let j = choose|j: int| 0 <= j < q1.len() && #[trigger] q1[j] == (k2, t1[k2].1);
                assert(self.queue()[j] == q1[j]);
            }
        }
    }
}

/// Round trip with expiry: right after `v` is inserted under `k` at `t0`, a
/// read of `k` at `t0` sees `v` (for any positive time to live); once `ttl`
/// or more has passed, a read sees nothing although the entry is still held.
pub proof fn lemma_ttl_round_trip<V>(c: &TtlCache<V>, k: Seq<char>, v: V, t0: u64, later: u64)
    requires
        c.wf(),
    ensures
        ({
            let t1 = insert_model(c.table(), c.queue(), c.capacity(), k, v, t0).0;
            &&& c.ttl() > 0 ==> lookup_spec(t1, k, t0, c.ttl()) == Some(v)
            &&& later >= t0 && later - t0 >= c.ttl() ==> lookup_spec(t1, k, later, c.ttl()) is None
                && t1.contains_key(k)
        }),
{
}

/// Whatever sequence of inserts and refreshes produced it, a cache with a
/// positive capacity holds at most `capacity` entries.
pub proof fn lemma_capacity_respected<V>(c: &TtlCache<V>)
    requires
        c.wf(),
        c.capacity() >= 1,
    ensures
        c.table().len() <= c.capacity(),
{
}

/// Two inserts under the same key (two readers that both missed and both
/// computed a value): the table ends with one entry for the key, holding
/// the later value, and stays within its capacity.
pub proof fn lemma_racing_inserts<V>(
    c0: &TtlCache<V>,
    c1: &TtlCache<V>,
    c2: &TtlCache<V>,
    k: Seq<char>,
    v1: V,
    v2: V,
    ts1: u64,
    ts2: u64,
)
    requires
        c0.wf(),
        c1.wf(),
        c2.wf(),
        c0.capacity() >= 1,
        c1.capacity() == c0.capacity(),
        c2.capacity() == c0.capacity(),
        (c1.table(), c1.queue()) == insert_model(c0.table(), c0.queue(), c0.capacity(), k, v1, ts1),
        (c2.table(), c2.queue()) == insert_model(c1.table(), c1.queue(), c1.capacity(), k, v2, ts2),
    ensures
        c2.table().contains_key(k),
        c2.table()[k] == (v2, ts2),
        c2.table().len() <= c0.capacity(),
{
}

} // verus!
