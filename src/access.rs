//! Per-client access log: a bounded queue of recent requests for each
//! client address, pruned from the front by age.
use vstd::prelude::*;
use std::collections::VecDeque;

verus! {

/// One logged request.
#[derive(Debug)]
pub struct IpAccessEntry {
    /// Wall-clock time of the request, in milliseconds since the epoch.
    pub at_ms: i64,
    pub method: String,
    pub path: String,
    pub status: u16,
}

impl IpAccessEntry {
    /// A copy of this entry.
    pub fn duplicate(&self) -> (r: Self)
        ensures
            r == *self,
    {
        IpAccessEntry {
            at_ms: self.at_ms,
            method: self.method.clone(),
            path: self.path.clone(),
            status: self.status,
        }
    }
}

/// `now - retention`, saturating at the least `i64`.
pub open spec fn cutoff_spec(now_ms: i64, retention_ms: i64) -> i64 {
    if now_ms - retention_ms < i64::MIN {
        i64::MIN
    } else {
        (now_ms - retention_ms) as i64
    }
}

/// How many entries at the front of `s` are older than `cutoff`.
pub open spec fn stale_prefix(s: Seq<IpAccessEntry>, cutoff: i64) -> nat
    decreases s.len(),
{
    if s.len() > 0 && s[0].at_ms < cutoff {
        1 + stale_prefix(s.drop_first(), cutoff)
    } else {
        0
    }
}

/// The bucket after pruning: with a positive retention, the leading
/// entries older than `now - retention` go.
pub open spec fn pruned(s: Seq<IpAccessEntry>, now_ms: i64, retention_ms: i64) -> Seq<IpAccessEntry> {
    if retention_ms <= 0 {
        s
    } else {
        s.skip(stale_prefix(s, cutoff_spec(now_ms, retention_ms)) as int)
    }
}

/// Drops, from the front of `bucket`, the entries older than the retention
/// window ending at `now_ms`. A retention of zero or less keeps everything.
pub fn prune_ip_bucket(bucket: &mut VecDeque<IpAccessEntry>, now_ms: i64, retention_ms: i64)
    ensures
        final(bucket)@ == pruned(old(bucket)@, now_ms, retention_ms),
{
    if retention_ms <= 0 {
        return;
    }
    let cutoff: i64 = if (now_ms as i128) - (retention_ms as i128) < i64::MIN as i128 {
        i64::MIN
    } else {
        now_ms - retention_ms
    };
    let ghost s0 = old(bucket)@;
    let ghost mut n: int = 0;
    assert(s0.skip(0) =~= s0);
    while bucket.len() > 0 && bucket[0].at_ms < cutoff
        invariant
            cutoff == cutoff_spec(now_ms, retention_ms),
            0 <= n <= s0.len(),
            bucket@ == s0.skip(n),
            stale_prefix(s0, cutoff) == n + stale_prefix(s0.skip(n), cutoff),
            s0 == old(bucket)@,
            retention_ms > 0,
        decreases bucket@.len(),
    {
        let ghost before = bucket@;
        bucket.pop_front();
        proof {
            assert(before.drop_first() =~= s0.skip(n + 1));
            n = n + 1;
        }
    }
}

/// How many of the oldest entries go to make room for one more under `cap`.
pub open spec fn room_drop(len: nat, cap: usize) -> nat {
    if len < cap {
        0
    } else if cap == 0 {
        len
    } else {
        (len - cap + 1) as nat
    }
}

/// The bucket after logging `e`: pruned, then trimmed from the front so
/// that, with `e` appended, it holds at most `cap` entries (one when `cap`
/// is zero).
pub open spec fn logged(s: Seq<IpAccessEntry>, e: IpAccessEntry, now_ms: i64, retention_ms: i64, cap: usize) -> Seq<IpAccessEntry> {
    let p = pruned(s, now_ms, retention_ms);
    p.skip(room_drop(p.len(), cap) as int).push(e)
}

/// Logs `e` in `bucket` at `now_ms`: prunes by age, makes room under the
/// per-client cap by dropping the oldest entries, then appends `e`.
pub fn record_ip_access(
    bucket: &mut VecDeque<IpAccessEntry>,
    e: IpAccessEntry,
    now_ms: i64,
    retention_ms: i64,
    cap: usize,
)
    ensures
        final(bucket)@ == logged(old(bucket)@, e, now_ms, retention_ms, cap),
        final(bucket)@.len() <= if cap == 0 { 1 } else { cap as int },
{
    prune_ip_bucket(bucket, now_ms, retention_ms);
    let ghost p = bucket@;
    let ghost mut d: int = 0;
    assert(p.skip(0) =~= p);
    while bucket.len() >= cap && bucket.len() > 0
        invariant
            p == pruned(old(bucket)@, now_ms, retention_ms),
            0 <= d <= room_drop(p.len(), cap),
            bucket@ == p.skip(d),
        decreases bucket@.len(),
    {
        let ghost before = bucket@;
        bucket.pop_front();
        proof {
            assert(before.drop_first() =~= p.skip(d + 1));
            d = d + 1;
        }
    }
    bucket.push_back(e);
}

/// The entries of `s` stamped at or after `cutoff`, in order.
pub open spec fn since(s: Seq<IpAccessEntry>, cutoff: i64) -> Seq<IpAccessEntry>
    decreases s.len(),
{
    if s.len() == 0 {
        s
    } else if s.last().at_ms >= cutoff {
        since(s.drop_last(), cutoff).push(s.last())
    } else {
        since(s.drop_last(), cutoff)
    }
}

/// The last `limit` entries of `s` stamped at or after `cutoff`.
pub open spec fn recent_spec(s: Seq<IpAccessEntry>, cutoff: i64, limit: usize) -> Seq<IpAccessEntry> {
    let f = since(s, cutoff);
    if f.len() > limit {
        f.skip(f.len() - limit)
    } else {
        f
    }
}

/// Copies of the last `limit` entries of `bucket` stamped at or after
/// `cutoff`, oldest first.
pub fn select_recent(bucket: &VecDeque<IpAccessEntry>, cutoff: i64, limit: usize) -> (r: Vec<IpAccessEntry>)
    ensures
        r@ == recent_spec(bucket@, cutoff, limit),
{
    let mut f: Vec<IpAccessEntry> = Vec::new();
    let mut i: usize = 0;
    assert(bucket@.take(0) =~= Seq::<IpAccessEntry>::empty());
    while i < bucket.len()
        invariant
            i <= bucket@.len(),
            f@ == since(bucket@.take(i as int), cutoff),
        decreases bucket@.len() - i,
    {
        assert(bucket@.take(i + 1).drop_last() =~= bucket@.take(i as int));
        if bucket[i].at_ms >= cutoff {
            f.push(bucket[i].duplicate());
        }
        i = i + 1;
    }
    assert(bucket@.take(bucket@.len() as int) =~= bucket@);
    if f.len() > limit {
        let mut out: Vec<IpAccessEntry> = Vec::new();
        let start = f.len() - limit;
        let mut j: usize = start;
        while j < f.len()
            invariant
                start <= j <= f@.len(),
                out@ == f@.subrange(start as int, j as int),
            decreases f@.len() - j,
        {
            out.push(f[j].duplicate());
            assert(f@.subrange(start as int, j + 1) =~= f@.subrange(start as int, j as int).push(f@[j as int]));
            j = j + 1;
        }
        assert(f@.skip(start as int) =~= f@.subrange(start as int, f@.len() as int));
        out
    } else {
        f
    }
}

/// Query of the access log of one client.
#[derive(Debug)]
pub struct IpLogQuery {
    pub ip: String,
    /// Window in minutes; the retention when absent.
    pub mins: Option<u64>,
    /// Most entries to return; the per-client cap when absent.
    pub limit: Option<usize>,
}

/// The window of a query, in seconds: the requested minutes (the retention
/// when absent or overflowing), at most the retention, at least a minute.
pub open spec fn window_secs_spec(mins: Option<u64>, retention_secs: u64) -> u64 {
    let req = match mins {
        Some(m) => if m * 60 <= u64::MAX {
            (m * 60) as u64
        } else {
            retention_secs
        },
        None => retention_secs,
    };
    let w = if req < retention_secs {
        req
    } else {
        retention_secs
    };
    if w < 60 {
        60
    } else {
        w
    }
}

/// Milliseconds in `secs` seconds, saturating at the largest `i64`.
pub open spec fn window_ms_spec(secs: u64) -> i64 {
    if secs * 1000 > i64::MAX {
        i64::MAX
    } else {
        (secs * 1000) as i64
    }
}

/// The number of entries a query returns at most: the requested limit
/// (the cap when absent), at most the cap, at least one.
pub open spec fn limit_spec(limit: Option<usize>, cap: usize) -> usize {
    let l = match limit {
        Some(x) => x,
        None => cap,
    };
    let m = if l < cap {
        l
    } else {
        cap
    };
    if m < 1 {
        1
    } else {
        m
    }
}

impl IpLogQuery {
    /// The query's window in seconds.
    pub fn window_secs(&self, retention_secs: u64) -> (r: u64)
        ensures
            r == window_secs_spec(self.mins, retention_secs),
    {
        let req = match self.mins {
            Some(m) => match m.checked_mul(60) {
                Some(x) => x,
                None => retention_secs,
            },
            None => retention_secs,
        };
        let w = if req < retention_secs {
            req
        } else {
            retention_secs
        };
        if w < 60 {
            60
        } else {
            w
        }
    }

    /// The query's limit on returned entries.
    pub fn effective_limit(&self, cap: usize) -> (r: usize)
        ensures
            r == limit_spec(self.limit, cap),
    {
        let l = match self.limit {
            Some(x) => x,
            None => cap,
        };
        let m = if l < cap {
            l
        } else {
            cap
        };
        if m < 1 {
            1
        } else {
            m
        }
    }
}

/// Milliseconds in `secs` seconds, saturating at the largest `i64`.
pub fn window_ms(secs: u64) -> (r: i64)
    ensures
        r == window_ms_spec(secs),
{
    if secs > (i64::MAX as u64) / 1000 {
        i64::MAX
    } else {
        (secs * 1000) as i64
    }
}

} // verus!
