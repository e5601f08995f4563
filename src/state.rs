//! Configuration of the server and the four cache tables it owns.
use vstd::prelude::*;
use crate::cache::{TtlCache, insert_model, lookup_spec, is_fresh};
use crate::headers::{dec_string, push_decimal};
use crate::paths_info::PathItem;
use crate::listing::{sort_names, sorted_names, strings_view};
use crate::repo::RepoKind;
use crate::sidecar::{SidecarMap, index_model};
use crate::json::{sidecar_records, json_of};

verus! {

/// Settings read at startup.
pub struct AppState {
    /// Canonical directory that holds the repositories.
    pub root: String,
    pub log_requests: bool,
    pub log_body_max: usize,
    pub log_headers_mode_all: bool,
    pub log_resp_headers: bool,
    pub log_redact: bool,
    pub log_body_all: bool,
    pub log_json_body: bool,
    pub ip_log_retention_secs: u64,
    pub ip_log_per_ip_cap: usize,
    /// Time to live of cached values, in milliseconds.
    pub cache_ttl_ms: u64,
    pub sidecar_cache_cap: usize,
    pub paths_info_cache_cap: usize,
    pub siblings_cache_cap: usize,
    pub sha256_cache_cap: usize,
}

/// Parsed sidecar indexes, keyed by sidecar path, modification time and size.
pub type SidecarCache = TtlCache<SidecarMap>;

/// A repository's sorted file names and their total size.
pub struct SiblingsEntry {
    pub siblings: Vec<String>,
    pub total: u64,
}

/// Sibling listings, keyed by kind and repository directory.
pub type SiblingsCache = TtlCache<SiblingsEntry>;

/// The items of one path-info answer.
pub struct PathsInfoEntry {
    pub items: Vec<PathItem>,
}

/// Path-info answers, keyed by repository, sidecar state and query.
pub type PathsInfoCache = TtlCache<PathsInfoEntry>;

/// A file's SHA-256, in hex.
pub struct Sha256Entry {
    pub sum: String,
}

/// File digests, keyed by path, modification time and size.
pub type Sha256Cache = TtlCache<Sha256Entry>;

/// `<path>|<mtime>|<size>`: the numbers hold no `|`, so distinct triples
/// give distinct keys.
pub open spec fn stat_key_spec(path: Seq<char>, mtime_secs: u64, size: u64) -> Seq<char> {
    path + seq!['|'] + dec_string(mtime_secs as nat) + seq!['|'] + dec_string(size as nat)
}

/// Cache key of a file's state: its path, modification time in whole
/// seconds, and size.
pub fn stat_key(path: &str, mtime_secs: u64, size: u64) -> (r: String)
    ensures
        r@ == stat_key_spec(path@, mtime_secs, size),
{
    let mut s = path.to_owned();
    s.append("|");
    push_decimal(&mut s, mtime_secs);
    s.append("|");
    push_decimal(&mut s, size);
    proof {
        reveal_strlit("|");
    }
    assert(s@ =~= stat_key_spec(path@, mtime_secs, size));
    s
}

/// `model:<dir>` or `dataset:<dir>`.
pub open spec fn siblings_key_spec(kind: RepoKind, dir: Seq<char>) -> Seq<char> {
    match kind {
        RepoKind::Model => "model:"@ + dir,
        RepoKind::Dataset => "dataset:"@ + dir,
    }
}

/// Cache key of a repository's sibling listing.
pub fn siblings_key(kind: RepoKind, dir: &str) -> (r: String)
    ensures
        r@ == siblings_key_spec(kind, dir@),
{
    let mut s = match kind {
        RepoKind::Model => String::from_str("model:"),
        RepoKind::Dataset => String::from_str("dataset:"),
    };
    s.append(dir);
    s
}

/// `|<length>:<path>` for each path in turn.
pub open spec fn encode_paths(ps: Seq<Seq<char>>) -> Seq<char>
    decreases ps.len(),
{
    if ps.len() == 0 {
        Seq::empty()
    } else {
        encode_paths(ps.drop_last()) + seq!['|'] + dec_string(ps.last().len()) + seq![':'] + ps.last()
    }
}

/// Key of a path-info answer: the repository directory and its sidecar's
/// state, the expansion flag, then the requested paths in sorted order,
/// each with its length so that no two queries share a key.
pub open spec fn paths_info_key_spec(dir: Seq<char>, mtime_secs: u64, size: u64, sorted: Seq<Seq<char>>, expand: bool) -> Seq<char> {
    stat_key_spec(dir, mtime_secs, size) + seq!['|', if expand { '1' } else { '0' }] + encode_paths(sorted)
}

/// Cache key of a path-info query on the repository at `dir`, whose
/// sidecar was modified at `mtime_secs` and is `size` bytes long.
pub fn paths_info_key(dir: &str, mtime_secs: u64, size: u64, paths: &Vec<String>, expand: bool) -> (r: String)
    ensures
        exists|sorted: Seq<Seq<char>>|
            sorted_names(sorted) && sorted.to_multiset() == strings_view(paths@).to_multiset()
                && r@ == paths_info_key_spec(dir@, mtime_secs, size, sorted, expand),
{
    let mut copy: Vec<String> = Vec::new();
    let mut i: usize = 0;
    while i < paths.len()
        invariant
            i <= paths@.len(),
            strings_view(copy@) == strings_view(paths@).take(i as int),
        decreases paths@.len() - i,
    {
        let ghost before = strings_view(copy@);
        copy.push(paths[i].clone());
        assert(strings_view(copy@) =~= before.push(paths@[i as int]@));
        assert(strings_view(paths@).take(i + 1) =~= strings_view(paths@).take(i as int).push(paths@[i as int]@));
        i = i + 1;
    }
    assert(strings_view(paths@).take(paths@.len() as int) =~= strings_view(paths@));
    let sorted = sort_names(copy);
    let ghost sv = strings_view(sorted@);
    let mut s = stat_key(dir, mtime_secs, size);
    s.append("|");
    s.append(if expand { "1" } else { "0" });
    proof {
        reveal_strlit("|");
        reveal_strlit("1");
        reveal_strlit("0");
    }
    let ghost base = s@;
    assert(base =~= stat_key_spec(dir@, mtime_secs, size) + seq!['|', if expand { '1' } else { '0' }]);
    let mut k: usize = 0;
    assert(sv.take(0) =~= Seq::<Seq<char>>::empty());
    assert(s@ =~= base + encode_paths(sv.take(0)));
    while k < sorted.len()
        invariant
            k <= sorted@.len(),
            sv == strings_view(sorted@),
            s@ == base + encode_paths(sv.take(k as int)),
        decreases sorted@.len() - k,
    {
        let p = &sorted[k];
        let len = crate::text::chars_of(p.as_str()).len();
        s.append("|");
        push_decimal(&mut s, len as u64);
        s.append(":");
        s.append(p.as_str());
        proof {
            reveal_strlit("|");
            reveal_strlit(":");
            assert(sv.take(k + 1).drop_last() =~= sv.take(k as int));
            assert(sv.take(k + 1).last() == p@);
        }
        assert(s@ =~= base + encode_paths(sv.take(k + 1)));
        k = k + 1;
    }
    assert(sv.take(sv.len() as int) =~= sv);
    s
}

/// Reading a sidecar index twice between two edits of the file gives the
/// same index: two snapshots built from one document have the same
/// entries, and a snapshot stored under its key reads back, while fresh,
/// as that snapshot.
pub proof fn lemma_sidecar_map_stable(
    c: &SidecarCache,
    key: Seq<char>,
    doc: Seq<char>,
    m: SidecarMap,
    m2: SidecarMap,
    t0: u64,
    now: u64,
)
    requires
        c.wf(),
        m.entries() == index_model(sidecar_records(json_of(doc))),
        m2.entries() == index_model(sidecar_records(json_of(doc))),
        is_fresh(now, t0, c.ttl()),
    ensures
        m.entries() == m2.entries(),
        lookup_spec(insert_model(c.table(), c.queue(), c.capacity(), key, m, t0).0, key, now, c.ttl())
            == Some(m),
{
}

} // verus!
