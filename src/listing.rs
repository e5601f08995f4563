//! Listings drawn from the sidecar index alone: a repository's file names
//! with their total size, and per-file path records.
use vstd::prelude::*;
use crate::sidecar::{SidecarMap, SidecarEntry};
use crate::text::chars_of;

verus! {

broadcast use vstd::seq_lib::group_to_multiset_ensures;

/// Code-point lexicographic order on strings (the order of `str`).
pub open spec fn seq_le(a: Seq<char>, b: Seq<char>) -> bool
    decreases a.len(),
{
    if a.len() == 0 {
        true
    } else if b.len() == 0 {
        false
    } else if a[0] != b[0] {
        a[0] < b[0]
    } else {
        seq_le(a.drop_first(), b.drop_first())
    }
}

proof fn lemma_seq_le_total(a: Seq<char>, b: Seq<char>)
    ensures
        seq_le(a, b) || seq_le(b, a),
    decreases a.len(),
{
    if a.len() > 0 && b.len() > 0 && a[0] == b[0] {
        lemma_seq_le_total(a.drop_first(), b.drop_first());
    }
}

/// Each name is at most the next one.
pub open spec fn sorted_names(s: Seq<Seq<char>>) -> bool {
    forall|i: int| 0 <= i < s.len() - 1 ==> seq_le(#[trigger] s[i], s[i + 1])
}

pub open spec fn strings_view(v: Seq<String>) -> Seq<Seq<char>> {
    v.map_values(|x: String| x@)
}

fn le_str(a: &String, b: &String) -> (r: bool)
    ensures
        r == seq_le(a@, b@),
{
    let x = chars_of(a.as_str());
    let y = chars_of(b.as_str());
    let mut i: usize = 0;
    assert(x@.skip(0) =~= x@);
    assert(y@.skip(0) =~= y@);
    while i < x.len() && i < y.len() && x[i] == y[i]
        invariant
            i <= x@.len(),
            i <= y@.len(),
            seq_le(x@, y@) == seq_le(x@.skip(i as int), y@.skip(i as int)),
        decreases x@.len() - i,
    {
        assert(x@.skip(i as int).drop_first() =~= x@.skip(i + 1));
        assert(y@.skip(i as int).drop_first() =~= y@.skip(i + 1));
        i = i + 1;
    }
    if i == x.len() {
        true
    } else if i == y.len() {
        false
    } else {
        x[i] < y[i]
    }
}

/// Sorts `names` in code-point order.
pub fn sort_names(names: Vec<String>) -> (r: Vec<String>)
    ensures
        sorted_names(strings_view(r@)),
        strings_view(r@).to_multiset() == strings_view(names@).to_multiset(),
{
    let ghost orig = names@;
    let n = names.len();
    let mut rest = names;
    let mut out: Vec<String> = Vec::new();
    let mut i: usize = 0;
    assert(strings_view(orig.take(0)) =~= Seq::<Seq<char>>::empty());
    assert(orig.skip(0) =~= orig);
    while rest.len() > 0
        invariant
            i <= orig.len(),
            orig.len() == n,
            rest@ == orig.skip(i as int),
            sorted_names(strings_view(out@)),
            strings_view(out@).to_multiset() == strings_view(orig.take(i as int)).to_multiset(),
        decreases rest@.len(),
    {
        let x = rest.remove(0);
        assert(rest@ =~= orig.skip(i + 1));
        assert(orig.take(i + 1) =~= orig.take(i as int).push(x));
        assert(strings_view(orig.take(i + 1)) =~= strings_view(orig.take(i as int)).push(x@));
        let mut j: usize = 0;
        while j < out.len() && !le_str(&x, &out[j])
            invariant
                j <= out@.len(),
                forall|k: int| 0 <= k < j ==> !seq_le(x@, #[trigger] out@[k]@),
            decreases out@.len() - j,
        {
            j = j + 1;
        }
        let ghost before = strings_view(out@);
        let ghost xv = x@;
        out.insert(j, x);
        assert(strings_view(out@) =~= before.insert(j as int, xv));
        proof {
            let s = strings_view(out@);
            assert forall|k: int| 0 <= k < s.len() - 1 implies seq_le(#[trigger] s[k], s[k + 1]) by {
                if k + 1 < j {
                    assert(s[k] == before[k] && s[k + 1] == before[k + 1]);
                } else if k + 1 == j {
                    lemma_seq_le_total(xv, before[k]);
                    assert(s[k] == before[k] && s[k + 1] == xv);
                } else if k == j {
                    assert(s[k] == xv && s[k + 1] == before[k]);
                } else {
                    assert(s[k] == before[k - 1] && s[k + 1] == before[k]);
                }
            }
            assert(before.insert(j as int, xv).to_multiset() == before.to_multiset().insert(xv));
            assert(strings_view(orig.take(i as int)).push(xv).to_multiset()
                == strings_view(orig.take(i as int)).to_multiset().insert(xv));
        }
        i = i + 1;
    }
    assert(orig.take(i as int) =~= orig);
    out
}

pub open spec fn fits_i64(v: Option<i128>) -> Option<i64> {
    match v {
        Some(x) => if i64::MIN <= x <= i64::MAX {
            Some(x as i64)
        } else {
            None
        },
        None => None,
    }
}

/// The size a listing reports for an entry: its `size` when that is an
/// `i64`, else its large-file pointer's size when that is one.
pub open spec fn listing_size(e: SidecarEntry) -> Option<i64> {
    match fits_i64(e.size) {
        Some(z) => Some(z),
        None => match e.lfs {
            Some(l) => fits_i64(l.size),
            None => None,
        },
    }
}

/// The name a listing shows for an entry.
pub open spec fn name_of(e: SidecarEntry) -> Seq<char> {
    match e.path {
        Some(p) => p@,
        None => Seq::empty(),
    }
}

pub open spec fn sat_add(a: u64, b: u64) -> u64 {
    if a + b > u64::MAX {
        u64::MAX
    } else {
        (a + b) as u64
    }
}

/// Sum of the positive sizes of `s`, saturating; `None` when an entry has
/// no size.
pub open spec fn total_size(s: Seq<SidecarEntry>) -> Option<u64>
    decreases s.len(),
{
    if s.len() == 0 {
        Some(0)
    } else {
        match (total_size(s.drop_last()), listing_size(s.last())) {
            (Some(t), Some(z)) => Some(
                if z > 0 {
                    sat_add(t, z as u64)
                } else {
                    t
                },
            ),
            _ => None,
        }
    }
}

fn i64_of(v: Option<i128>) -> (r: Option<i64>)
    ensures
        r == fits_i64(v),
{
    match v {
        Some(x) => if i64::MIN as i128 <= x && x <= i64::MAX as i128 {
            Some(x as i64)
        } else {
            None
        },
        None => None,
    }
}

fn size_of_entry(e: &SidecarEntry) -> (r: Option<i64>)
    ensures
        r == listing_size(*e),
{
    match i64_of(e.size) {
        Some(z) => Some(z),
        None => match &e.lfs {
            Some(l) => i64_of(l.size),
            None => None,
        },
    }
}

/// The file names of a repository, sorted, and the total of their sizes
/// (positive sizes only, saturating); `None` when an entry records no size.
pub fn siblings_from_sidecar(sc_map: &SidecarMap) -> (r: Option<(Vec<String>, u64)>)
    ensures
        match r {
            Some((names, total)) => {
                &&& total_size(sc_map.entries()) == Some(total)
                &&& sorted_names(strings_view(names@))
                &&& strings_view(names@).to_multiset() == sc_map.entries().map_values(
                    |e: SidecarEntry| name_of(e),
                ).to_multiset()
            },
            None => total_size(sc_map.entries()) is None,
        },
{
    let ghost es = sc_map.entries();
    let mut names: Vec<String> = Vec::new();
    let mut total: u64 = 0;
    let mut i: usize = 0;
    assert(es.take(0) =~= Seq::<SidecarEntry>::empty());
    while i < sc_map.len()
        invariant
            es == sc_map.entries(),
            i <= es.len(),
            total_size(es.take(i as int)) == Some(total),
            strings_view(names@) == es.take(i as int).map_values(|e: SidecarEntry| name_of(e)),
        decreases es.len() - i,
    {
        let e = sc_map.entry(i);
        assert(es.take(i + 1).drop_last() =~= es.take(i as int));
        let ghost nv = strings_view(names@);
        match size_of_entry(e) {
            None => {
                proof {
                    lemma_total_none_grows(es, i as int + 1);
                }
                return None;
            },
            Some(z) => {
                if z > 0 {
                    total = if total > u64::MAX - (z as u64) {
                        u64::MAX
                    } else {
                        total + z as u64
                    };
                }
            },
        }
        let name = match &e.path {
            Some(p) => p.clone(),
            None => String::new(),
        };
        assert(name@ == name_of(es[i as int]));
        assert(es.take(i + 1).map_values(|e: SidecarEntry| name_of(e)) =~= es.take(i as int).map_values(
            |e: SidecarEntry| name_of(e),
        ).push(name_of(es[i as int])));
        names.push(name);
        assert(strings_view(names@) =~= es.take(i + 1).map_values(|e: SidecarEntry| name_of(e)));
        i = i + 1;
    }
    assert(es.take(es.len() as int) =~= es);
    let sorted = sort_names(names);
    Some((sorted, total))
}

proof fn lemma_total_none_grows(s: Seq<SidecarEntry>, k: int)
    requires
        0 <= k <= s.len(),
        total_size(s.take(k)) is None,
    ensures
        total_size(s) is None,
    decreases s.len(),
{
    if k < s.len() {
        assert(s.drop_last().take(k) =~= s.take(k));
        lemma_total_none_grows(s.drop_last(), k);
    } else {
        assert(s.take(k) =~= s);
    }
}

/// A large-file pointer as a listing reports it.
#[derive(Debug, PartialEq, Eq)]
pub struct LfsSummary {
    pub oid: Option<String>,
    pub size: Option<i64>,
}

/// One file as a path-info listing reports it.
#[derive(Debug, PartialEq, Eq)]
pub struct PathInfo {
    pub path: String,
    pub size: i64,
    pub oid: Option<String>,
    pub lfs: Option<LfsSummary>,
}

/// `p` reports the entry `e`.
pub open spec fn reports(p: PathInfo, e: SidecarEntry) -> bool {
    &&& p.path@ == name_of(e)
    &&& listing_size(e) == Some(p.size)
    &&& p.oid == e.oid
    &&& p.lfs == match e.lfs {
        Some(l) => Some(LfsSummary { oid: l.oid, size: fits_i64(l.size) }),
        None => None,
    }
}

/// One record per entry of the index, in its order: path, size, primary
/// hash and large-file pointer. `None` (the index is incomplete) when an
/// entry records no size.
pub fn collect_paths_info_from_sidecar(sc_map: &SidecarMap) -> (r: Option<Vec<PathInfo>>)
    ensures
        match r {
            Some(v) => v@.len() == sc_map.entries().len() && forall|i: int|
                0 <= i < v@.len() ==> reports(#[trigger] v@[i], sc_map.entries()[i]),
            None => exists|i: int|
                0 <= i < sc_map.entries().len() && (#[trigger] listing_size(sc_map.entries()[i])) is None,
        },
{
    let ghost es = sc_map.entries();
    let mut out: Vec<PathInfo> = Vec::new();
    let mut i: usize = 0;
    while i < sc_map.len()
        invariant
            es == sc_map.entries(),
            i <= es.len(),
            out@.len() == i,
            forall|j: int| 0 <= j < i ==> reports(#[trigger] out@[j], es[j]),
        decreases es.len() - i,
    {
        let e = sc_map.entry(i);
        let size = match size_of_entry(e) {
            Some(z) => z,
            None => {
                assert(listing_size(es[i as int]) is None);
                return None;
            },
        };
        let path = match &e.path {
            Some(p) => p.clone(),
            None => String::new(),
        };
        let oid = match &e.oid {
            Some(o) => Some(o.clone()),
            None => None,
        };
        let lfs = match &e.lfs {
            Some(l) => Some(
                LfsSummary {
                    oid: match &l.oid {
                        Some(o) => Some(o.clone()),
                        None => None,
                    },
                    size: i64_of(l.size),
                },
            ),
            None => None,
        };
        out.push(PathInfo { path, size, oid, lfs });
        i = i + 1;
    }
    Some(out)
}

} // verus!
