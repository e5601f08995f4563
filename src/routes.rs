//! Splitting a request path into repository, revision and file name.
use vstd::prelude::*;
use crate::paths::{normalize_rel, normalized, is_sidecar_path, final_segment, split_segments, sidecar_name_spec, join_segments, join_stack};
use crate::range::{head_until, tail_after, split_first};
use crate::serve::{Method, ServeError};
use crate::text::{chars_of, chars_eq, sub_vec, string_of, push_char, append_chars, split_chars, split_on, seqs_view};

verus! {

/// The two file endpoints.
#[derive(Debug, Clone, Copy, PartialEq, Eq, Structural)]
pub enum RouteKind {
    /// `<repo>/resolve/<revision>/<file>`: the file's content.
    Resolve,
    /// `<repo>/sha256/<revision>/<file>`: the file's SHA-256.
    Sha256,
}

/// A request path taken apart.
pub struct Route {
    pub kind: RouteKind,
    pub repo: String,
    pub revision: String,
    pub filename: String,
    /// `repo/filename`, relative to the served root.
    pub rel: String,
}

/// Start of the last occurrence of `n` in `s`.
pub open spec fn rfind_spec(s: Seq<char>, n: Seq<char>) -> Option<int>
    decreases s.len(),
{
    if s.len() < n.len() {
        None
    } else if s.skip(s.len() - n.len()) == n {
        Some(s.len() - n.len())
    } else if s.len() == 0 {
        None
    } else {
        rfind_spec(s.drop_last(), n)
    }
}

pub open spec fn with_slash(s: Seq<char>) -> Seq<char> {
    if s.len() > 0 && s[0] == '/' {
        s
    } else {
        seq!['/'] + s
    }
}

pub open spec fn trim_slashes(s: Seq<char>) -> Seq<char>
    decreases s.len(),
{
    if s.len() > 0 && s[0] == '/' {
        trim_slashes(s.drop_first())
    } else {
        s
    }
}

/// Splits `path` around the last `needle`: the repository before it, then
/// the revision and the file name after it.
pub open spec fn split_around(path: Seq<char>, i: int, needle_len: int) -> (Seq<char>, Seq<char>, Seq<char>) {
    let left = if i >= 1 {
        path.subrange(1, i)
    } else {
        Seq::empty()
    };
    let right = path.skip(i + needle_len);
    (left, head_until(right, '/'), tail_after(right, '/'))
}

pub open spec fn is_sidecar_name(f: Seq<char>) -> bool {
    final_segment(split_segments(f)) == sidecar_name_spec()
}

pub open spec fn rel_of(left: Seq<char>, file: Seq<char>) -> Seq<char> {
    trim_slashes(left) + seq!['/'] + file
}

/// The file a request names is the sidecar file, or cannot be resolved:
/// its name, or the normal form of its path, ends in the sidecar name, or
/// the path climbs out.
pub open spec fn names_sidecar(left: Seq<char>, file: Seq<char>) -> bool {
    is_sidecar_name(file) || match normalized(rel_of(left, file)) {
        None => true,
        Some(n) => is_sidecar_name(n),
    }
}

/// How a request path routes: (kind, repo, revision, file name, relative
/// path), or why it is refused.
pub open spec fn route_spec(rest: Seq<char>, method: Method) -> Result<
    (RouteKind, Seq<char>, Seq<char>, Seq<char>, Seq<char>),
    ServeError,
> {
    let path = with_slash(rest);
    match rfind_spec(path, "/sha256/"@) {
        Some(i) => {
            let (left, rev, file) = split_around(path, i, 8);
            if left.len() == 0 || file.len() == 0 {
                Err(ServeError::NotFound)
            } else if method == Method::Head {
                Err(ServeError::MethodNotAllowed)
            } else if names_sidecar(left, file) {
                Err(ServeError::NotFound)
            } else {
                Ok((RouteKind::Sha256, left, rev, file, rel_of(left, file)))
            }
        },
        None => match rfind_spec(path, "/resolve/"@) {
            None => Err(ServeError::NotFound),
            Some(i) => {
                let (left, rev, file) = split_around(path, i, 9);
                if left.len() == 0 || rev.len() == 0 || file.len() == 0 {
                    Err(ServeError::NotFound)
                } else if names_sidecar(left, file) {
                    Err(ServeError::NotFound)
                } else {
                    Ok((RouteKind::Resolve, left, rev, file, rel_of(left, file)))
                }
            },
        },
    }
}

fn rfind(s: &Vec<char>, n: &Vec<char>) -> (r: Option<usize>)
    ensures
        match r {
            Some(i) => rfind_spec(s@, n@) == Some(i as int) && i + n@.len() <= s@.len(),
            None => rfind_spec(s@, n@) is None,
        },
{
    let mut k: usize = s.len();
    assert(s@.take(k as int) =~= s@);
    while k >= n.len()
        invariant
            k <= s@.len(),
            rfind_spec(s@, n@) == rfind_spec(s@.take(k as int), n@),
        decreases k,
    {
        let tail = sub_vec(s, k - n.len(), k);
        assert(s@.take(k as int).skip(k - n@.len()) =~= s@.subrange(k - n@.len(), k as int));
        if chars_eq(&tail, n) {
            return Some(k - n.len());
        }
        if k == 0 {
            assert(n@.len() > 0) by {
                if n@.len() == 0 {
                    assert(tail@ =~= n@);
                }
            }
            return None;
        }
        assert(s@.take(k as int).drop_last() =~= s@.take(k - 1));
        k = k - 1;
    }
    None
}

fn trim_slashes_vec(v: &Vec<char>) -> (r: Vec<char>)
    ensures
        r@ == trim_slashes(v@),
{
    let mut lo: usize = 0;
    assert(v@.skip(0) =~= v@);
    while lo < v.len() && v[lo] == '/'
        invariant
            lo <= v@.len(),
            trim_slashes(v@) == trim_slashes(v@.skip(lo as int)),
        decreases v@.len() - lo,
    {
        assert(v@.skip(lo as int).drop_first() =~= v@.skip(lo + 1));
        lo = lo + 1;
    }
    assert(v@.skip(lo as int) =~= v@.subrange(lo as int, v@.len() as int));
    sub_vec(v, lo, v.len())
}

/// Splits the request path `rest` (what follows the server's root `/`) into
/// an endpoint, repository, revision and file name. Refuses (404) a path of
/// neither shape, one with an empty part, or one naming the sidecar file;
/// HEAD on the SHA-256 endpoint is refused (405).
pub fn parse_route(rest: &str, method: Method) -> (r: Result<Route, ServeError>)
    ensures
        match r {
            Ok(x) => route_spec(rest@, method) == Ok::<
                (RouteKind, Seq<char>, Seq<char>, Seq<char>, Seq<char>),
                ServeError,
            >((x.kind, x.repo@, x.revision@, x.filename@, x.rel@)),
            Err(e) => route_spec(rest@, method) == Err::<
                (RouteKind, Seq<char>, Seq<char>, Seq<char>, Seq<char>),
                ServeError,
            >(e),
        },
{
    let rc = chars_of(rest);
    let mut path: Vec<char> = Vec::new();
    if !(rc.len() > 0 && rc[0] == '/') {
        path.push('/');
    }
    let mut k: usize = 0;
    let ghost p0 = path@;
    while k < rc.len()
        invariant
            k <= rc@.len(),
            path@ == p0 + rc@.take(k as int),
        decreases rc@.len() - k,
    {
        path.push(rc[k]);
        assert(rc@.take(k + 1) =~= rc@.take(k as int).push(rc@[k as int]));
        k = k + 1;
    }
    assert(rc@.take(rc@.len() as int) =~= rc@);
    assert(path@ =~= with_slash(rest@));
    let sha = chars_of("/sha256/");
    let res = chars_of("/resolve/");
    proof {
        reveal_strlit("/sha256/");
        reveal_strlit("/resolve/");
    }
    assert(sha@.len() == 8);
    assert(res@.len() == 9);
    let plen = path.len();
    let (kind, i, nlen, j) = match rfind(&path, &sha) {
        Some(i) => (RouteKind::Sha256, i, 8usize, i + 8),
        None => match rfind(&path, &res) {
            Some(i) => {
                assert(res@.len() == 9);
                (RouteKind::Resolve, i, 9usize, i + 9)
            },
            None => {
                return Err(ServeError::NotFound);
            },
        },
    };
    let left = if i >= 1 {
        sub_vec(&path, 1, i)
    } else {
        Vec::new()
    };
    assert(j == i + nlen && j <= path@.len());
    assert(path@.skip(j as int) =~= path@.subrange(j as int, path@.len() as int));
    let right = sub_vec(&path, j, path.len());
    let (rev, file, _) = split_first(&right, '/');
    assert((left@, rev@, file@) == split_around(path@, i as int, nlen as int));
    let missing = match kind {
        RouteKind::Sha256 => left.len() == 0 || file.len() == 0,
        RouteKind::Resolve => left.len() == 0 || rev.len() == 0 || file.len() == 0,
    };
    if missing {
        return Err(ServeError::NotFound);
    }
    if kind == RouteKind::Sha256 && method == Method::Head {
        return Err(ServeError::MethodNotAllowed);
    }
    let filename = string_of(&file);
    if is_sidecar_path(filename.as_str()) {
        return Err(ServeError::NotFound);
    }
    let mut rel = string_of(&trim_slashes_vec(&left));
    push_char(&mut rel, '/');
    append_chars(&mut rel, &file);
    assert(rel@ == rel_of(left@, file@));
    match normalize_rel(rel.as_str()) {
        None => {
            return Err(ServeError::NotFound);
        },
        Some(n) => {
            if is_sidecar_path(n.as_str()) {
                return Err(ServeError::NotFound);
            }
        },
    }
    Ok(Route { kind, repo: string_of(&left), revision: string_of(&rev), filename, rel })
}

/// For `<repo>/<marker>/<revision>`, where `<repo>` may hold `/`: the
/// repository and the revision.
pub open spec fn split_marked_spec(rest: Seq<char>, marker: Seq<char>) -> Option<(Seq<char>, Seq<char>)> {
    let parts = split_on(rest, '/');
    if parts.len() >= 3 && parts[parts.len() - 2] == marker {
        Some((join_segments(parts.take(parts.len() - 2)), parts.last()))
    } else {
        None
    }
}

/// No accepted request names the sidecar file: the relative path of every
/// accepted route normalises, and its normal form does not end in the
/// sidecar name.
pub proof fn lemma_route_never_sidecar(rest: Seq<char>, method: Method)
    ensures
        route_spec(rest, method) matches Ok((k, l, rev, f, rel)) ==> normalized(rel) matches Some(n)
            && !is_sidecar_name(n),
{
}

/// Splits an API path of the form `<repo>/<marker>/<revision>` into the
/// repository and the revision; `None` when the next-to-last segment is
/// not `marker` or there is no repository segment before it.
pub fn split_marked(rest: &str, marker: &str) -> (r: Option<(String, String)>)
    ensures
        match r {
            Some((repo, rev)) => split_marked_spec(rest@, marker@) == Some((repo@, rev@)),
            None => split_marked_spec(rest@, marker@) is None,
        },
{
    let cs = chars_of(rest);
    let parts = split_chars(&cs, '/');
    let ghost pv = seqs_view(parts@);
    let n = parts.len();
    if n < 3 {
        return None;
    }
    let m = chars_of(marker);
    if !chars_eq(&parts[n - 2], &m) {
        return None;
    }
    let mut prefix: Vec<Vec<char>> = Vec::new();
    let mut k: usize = 0;
    while k < n - 2
        invariant
            n == parts@.len(),
            n >= 3,
            k <= n - 2,
            pv == seqs_view(parts@),
            seqs_view(prefix@) == pv.take(k as int),
        decreases n - 2 - k,
    {
        let seg = parts[k].clone();
        assert(seg@ == parts@[k as int]@);
        let ghost before = seqs_view(prefix@);
        prefix.push(seg);
        assert(seqs_view(prefix@) =~= before.push(pv[k as int]));
        assert(pv.take(k + 1) =~= pv.take(k as int).push(pv[k as int]));
        k = k + 1;
    }
    let repo = join_stack(&prefix);
    let rev = string_of(&parts[n - 1]);
    assert(pv[n - 2] == parts@[n - 2]@);
    assert(pv.last() == parts@[n - 1]@);
    Some((repo, rev))
}

} // verus!
