//! The per-root sidecar index: which files exist, their sizes and recorded
//! hashes, and the ETag derived from them.
use vstd::prelude::*;
use crate::json::{sidecar_entries, sidecar_records, json_of};
use crate::text::{chars_of, chars_eq, string_of, sub_vec};

verus! {

/// The large-file pointer of an entry.
#[derive(Clone, Debug)]
pub struct LfsInfo {
    pub oid: Option<String>,
    /// The recorded size, when it is an integer.
    pub size: Option<i128>,
}

/// One entry of the sidecar index, as read from its JSON document.
#[derive(Clone, Debug)]
pub struct SidecarEntry {
    /// `path`: posix-style path relative to the root.
    pub path: Option<String>,
    /// `type`: `file` for the entries that count.
    pub kind: Option<String>,
    /// `size`, when it is an integer.
    pub size: Option<i128>,
    /// `oid`: the primary hash.
    pub oid: Option<String>,
    pub etag: Option<String>,
    pub blake3: Option<String>,
    /// `lfs`, when it is an object.
    pub lfs: Option<LfsInfo>,
}

pub open spec fn file_word() -> Seq<char> {
    seq!['f', 'i', 'l', 'e']
}

/// An entry that the index keeps: of kind `file`, with a path.
pub open spec fn is_kept(e: SidecarEntry) -> bool {
    &&& e.path is Some
    &&& e.kind is Some
    &&& e.kind->0@ == file_word()
}

pub open spec fn entry_path(e: SidecarEntry) -> Seq<char> {
    e.path->0@
}

/// Index of the last entry of `s` whose path is `p`.
pub open spec fn index_of_path(s: Seq<SidecarEntry>, p: Seq<char>) -> Option<int>
    decreases s.len(),
{
    if s.len() == 0 {
        None
    } else if s.last().path is Some && entry_path(s.last()) == p {
        Some(s.len() - 1)
    } else {
        index_of_path(s.drop_last(), p)
    }
}

/// The kept entries of `rs`, one per path, in order of first appearance;
/// a later entry for a path replaces the earlier one.
pub open spec fn index_model(rs: Seq<SidecarEntry>) -> Seq<SidecarEntry>
    decreases rs.len(),
{
    if rs.len() == 0 {
        Seq::empty()
    } else {
        let s = index_model(rs.drop_last());
        let e = rs.last();
        if !is_kept(e) {
            s
        } else {
            match index_of_path(s, entry_path(e)) {
                Some(i) => s.update(i, e),
                None => s.push(e),
            }
        }
    }
}

/// The entry recorded for path `p`.
pub open spec fn lookup_path(s: Seq<SidecarEntry>, p: Seq<char>) -> Option<SidecarEntry> {
    match index_of_path(s, p) {
        Some(i) => Some(s[i]),
        None => None,
    }
}

/// An immutable snapshot of one root's sidecar index.
#[derive(Clone, Debug)]
pub struct SidecarMap {
    entries: Vec<SidecarEntry>,
}

fn is_file_kind(k: &String) -> (r: bool)
    ensures
        r == (k@ == file_word()),
{
    let c = chars_of(k.as_str());
    let w = vec!['f', 'i', 'l', 'e'];
    assert(w@ =~= file_word());
    chars_eq(&c, &w)
}

fn find_path(s: &Vec<SidecarEntry>, p: &String) -> (r: Option<usize>)
    ensures
        match r {
            Some(i) => index_of_path(s@, p@) == Some(i as int) && i < s@.len(),
            None => index_of_path(s@, p@) is None,
        },
{
    let mut k: usize = s.len();
    assert(s@.take(k as int) =~= s@);
    while k > 0
        invariant
            k <= s@.len(),
            index_of_path(s@, p@) == index_of_path(s@.take(k as int), p@),
        decreases k,
    {
        assert(s@.take(k as int).drop_last() =~= s@.take(k - 1));
        let hit = match &s[k - 1].path {
            Some(q) => *q == *p,
            None => false,
        };
        if hit {
            return Some(k - 1);
        }
        k = k - 1;
    }
    None
}

impl SidecarMap {
    /// The entries, one per path.
    pub closed spec fn entries(&self) -> Seq<SidecarEntry> {
        self.entries@
    }

    /// The index of a root without a sidecar file.
    pub fn new() -> (r: Self)
        ensures
            r.entries() == Seq::<SidecarEntry>::empty(),
    {
        SidecarMap { entries: Vec::new() }
    }

    /// Builds the index from the entries of the document, in order: keeps
    /// entries of kind `file` that have a path; the last one for a path wins.
    pub fn from_entries(records: Vec<SidecarEntry>) -> (r: Self)
        ensures
            r.entries() == index_model(records@),
    {
        let ghost orig = records@;
        let n = records.len();
        let mut rest = records;
        let mut out: Vec<SidecarEntry> = Vec::new();
        let mut i: usize = 0;
        assert(orig.take(0) =~= Seq::<SidecarEntry>::empty());
        assert(orig.skip(0) =~= orig);
        while rest.len() > 0
            invariant
                i <= orig.len(),
                orig.len() == n,
                rest@ == orig.skip(i as int),
                out@ == index_model(orig.take(i as int)),
            decreases rest@.len(),
        {
            let e = rest.remove(0);
            assert(orig.take(i + 1).drop_last() =~= orig.take(i as int));
            assert(orig.take(i + 1).last() == e);
            assert(rest@ =~= orig.skip(i + 1));
            let keep = match (&e.path, &e.kind) {
                (Some(_), Some(k)) => is_file_kind(k),
                _ => false,
            };
            if keep {
                let p = match &e.path {
                    Some(p) => p.clone(),
                    None => String::new(),
                };
                match find_path(&out, &p) {
                    Some(j) => {
                        out.set(j, e);
                    },
                    None => {
                        out.push(e);
                    },
                }
            }
            i = i + 1;
        }
        assert(orig.take(i as int) =~= orig);
        SidecarMap { entries: out }
    }

    /// The index of the sidecar document `doc`: for each path, the last
    /// entry of kind `file` that the document's `entries` array gives it.
    pub fn from_document(doc: &str) -> (r: Self)
        ensures
            r.entries() == index_model(sidecar_records(json_of(doc@))),
    {
        SidecarMap::from_entries(sidecar_entries(doc))
    }

    /// Number of paths in the index.
    pub fn len(&self) -> (r: usize)
        ensures
            r == self.entries().len(),
    {
        self.entries.len()
    }

    /// The entry at position `i`.
    pub fn entry(&self, i: usize) -> (r: &SidecarEntry)
        requires
            i < self.entries().len(),
        ensures
            *r == self.entries()[i as int],
    {
        &self.entries[i]
    }

    /// The entry recorded for `path`.
    pub fn get(&self, path: &str) -> (r: Option<&SidecarEntry>)
        ensures
            match r {
                Some(e) => lookup_path(self.entries(), path@) == Some(*e),
                None => lookup_path(self.entries(), path@) is None,
            },
    {
        let p = path.to_owned();
        match find_path(&self.entries, &p) {
            Some(i) => Some(&self.entries[i]),
            None => None,
        }
    }
}

/// What follows the last `:` of `s` (all of `s` when it has none), so that
/// `sha256:ab12` gives `ab12`.
pub open spec fn after_last_colon(s: Seq<char>) -> Seq<char>
    decreases s.len(),
{
    if s.len() == 0 {
        s
    } else if s.last() == ':' {
        Seq::empty()
    } else {
        after_last_colon(s.drop_last()).push(s.last())
    }
}

/// The recorded size, when the entry records an integer one, equals
/// `expected`; a negative recorded size never does.
pub open spec fn size_agrees(e: SidecarEntry, expected: u64) -> bool {
    match e.size {
        Some(v) => v == expected,
        None => true,
    }
}

/// The ETag of the file at `p`, and whether it came from the large-file
/// pointer: the pointer's oid without its algorithm prefix, else the
/// primary `oid`, else the `etag` field. None when the path has no entry,
/// the entry's size disagrees with `expected`, or no field is present.
pub open spec fn etag_spec(s: Seq<SidecarEntry>, p: Seq<char>, expected: u64) -> Option<(Seq<char>, bool)> {
    match lookup_path(s, p) {
        None => None,
        Some(e) => if !size_agrees(e, expected) {
            None
        } else if e.lfs is Some && e.lfs->0.oid is Some {
            Some((after_last_colon(e.lfs->0.oid->0@), true))
        } else if e.oid is Some {
            Some((e.oid->0@, false))
        } else if e.etag is Some {
            Some((e.etag->0@, false))
        } else {
            None
        },
    }
}

fn strip_algorithm(o: &String) -> (r: String)
    ensures
        r@ == after_last_colon(o@),
{
    let c = chars_of(o.as_str());
    let mut k: usize = c.len();
    assert(c@.take(k as int) =~= c@);
    assert(c@.skip(k as int) =~= Seq::<char>::empty());
    while k > 0 && c[k - 1] != ':'
        invariant
            k <= c@.len(),
            c@ == o@,
            after_last_colon(c@) == after_last_colon(c@.take(k as int)) + c@.skip(k as int),
        decreases k,
    {
        assert(c@.take(k as int).drop_last() =~= c@.take(k - 1));
        assert(after_last_colon(c@.take(k - 1)).push(c@[k - 1]) + c@.skip(k as int)
            =~= after_last_colon(c@.take(k - 1)) + c@.skip(k - 1));
        k = k - 1;
    }
    assert(c@.skip(k as int) =~= c@.subrange(k as int, c@.len() as int));
    let tail = sub_vec(&c, k, c.len());
    string_of(&tail)
}

/// Derives the ETag for `rel_path` strictly from the index, checking the
/// recorded size against `expected_size`; `true` marks a large-file oid.
pub fn etag_from_sidecar(sc_map: &SidecarMap, rel_path: &str, expected_size: u64) -> (r: Option<(String, bool)>)
    ensures
        match r {
            Some((t, lfs)) => etag_spec(sc_map.entries(), rel_path@, expected_size) == Some((t@, lfs)),
            None => etag_spec(sc_map.entries(), rel_path@, expected_size) is None,
        },
{
    let sc = match sc_map.get(rel_path) {
        Some(e) => e,
        None => {
            return None;
        },
    };
    let ok_size = match sc.size {
        Some(v) => v == expected_size as i128,
        None => true,
    };
    if !ok_size {
        return None;
    }
    if let Some(l) = &sc.lfs {
        if let Some(o) = &l.oid {
            return Some((strip_algorithm(o), true));
        }
    }
    if let Some(o) = &sc.oid {
        return Some((o.clone(), false));
    }
    if let Some(t) = &sc.etag {
        return Some((t.clone(), false));
    }
    None
}

} // verus!
