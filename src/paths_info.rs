//! Answers to path-info queries: for each requested path, the file record
//! the sidecar index holds for it, or a directory with the files below it.
use vstd::prelude::*;
use crate::listing::{PathInfo, LfsSummary, listing_size, name_of, fits_i64, strings_view};
use crate::range::{trim, trim_chars};
use crate::serve::ServeError;
use crate::sidecar::{SidecarMap, SidecarEntry, lookup_path};
use crate::text::{chars_of, string_of};

verus! {

/// One item of an answer.
pub enum PathItem {
    File(PathInfo),
    Directory(String),
}

/// (is a directory, path, size, oid, large-file pointer as (oid, size)).
pub type ItemView = (bool, Seq<char>, i64, Option<Seq<char>>, Option<(Option<Seq<char>>, Option<i64>)>);

pub open spec fn opt_str(o: Option<String>) -> Option<Seq<char>> {
    match o {
        Some(s) => Some(s@),
        None => None,
    }
}

pub open spec fn item_view(it: PathItem) -> ItemView {
    match it {
        PathItem::File(p) => (
            false,
            p.path@,
            p.size,
            opt_str(p.oid),
            match p.lfs {
                Some(l) => Some((opt_str(l.oid), l.size)),
                None => None,
            },
        ),
        PathItem::Directory(d) => (true, d@, 0, None, None),
    }
}

pub open spec fn items_view(v: Seq<PathItem>) -> Seq<ItemView> {
    v.map_values(|it: PathItem| item_view(it))
}

pub open spec fn dir_item(name: Seq<char>) -> ItemView {
    (true, name, 0, None, None)
}

/// The file record of `e`; when `lfs_default`, a pointer without a size
/// reports the file's size. `None` when the entry has no size.
pub open spec fn record_spec(e: SidecarEntry, lfs_default: bool) -> Option<ItemView> {
    match listing_size(e) {
        None => None,
        Some(z) => Some(
            (
                false,
                name_of(e),
                z,
                opt_str(e.oid),
                match e.lfs {
                    Some(l) => Some(
                        (
                            opt_str(l.oid),
                            if lfs_default {
                                Some(
                                    match fits_i64(l.size) {
                                        Some(x) => x,
                                        None => z,
                                    },
                                )
                            } else {
                                fits_i64(l.size)
                            },
                        ),
                    ),
                    None => None,
                },
            ),
        ),
    }
}

pub open spec fn starts_with(s: Seq<char>, p: Seq<char>) -> bool {
    s.len() >= p.len() && s.take(p.len() as int) == p
}

/// Records of the entries whose name starts with `prefix`, in index order.
pub open spec fn records_under(s: Seq<SidecarEntry>, prefix: Seq<char>, lfs_default: bool) -> Option<Seq<ItemView>>
    decreases s.len(),
{
    if s.len() == 0 {
        Some(Seq::empty())
    } else {
        match records_under(s.drop_last(), prefix, lfs_default) {
            None => None,
            Some(a) => if starts_with(name_of(s.last()), prefix) {
                match record_spec(s.last(), lfs_default) {
                    None => None,
                    Some(r) => Some(a.push(r)),
                }
            } else {
                Some(a)
            },
        }
    }
}

pub open spec fn is_root_query(p: Seq<char>) -> bool {
    let t = trim(p);
    t.len() == 0 || t == seq!['/'] || t == seq!['.']
}

pub open spec fn slashes_forward(s: Seq<char>) -> Seq<char> {
    s.map_values(|c: char| if c == '\\' { '/' } else { c })
}

pub open spec fn drop_slashes(s: Seq<char>) -> Seq<char>
    decreases s.len(),
{
    if s.len() > 0 && s[0] == '/' {
        drop_slashes(s.drop_first())
    } else {
        s
    }
}

/// A requested path as the index spells it: trimmed, without leading `/`,
/// with `\` turned into `/`.
pub open spec fn query_name(p: Seq<char>) -> Seq<char> {
    slashes_forward(drop_slashes(trim(p)))
}

/// The items answering one requested path.
pub open spec fn path_items(s: Seq<SidecarEntry>, p: Seq<char>, expand: bool) -> Option<Seq<ItemView>> {
    if is_root_query(p) {
        if expand {
            records_under(s, Seq::empty(), false)
        } else {
            Some(seq![dir_item(Seq::empty())])
        }
    } else {
        let n = query_name(p);
        match lookup_path(s, n) {
            Some(e) => match record_spec(e, true) {
                None => None,
                Some(r) => Some(seq![r]),
            },
            None => if expand {
                match records_under(s, if n.len() == 0 { n } else { n + seq!['/'] }, true) {
                    None => None,
                    Some(u) => Some(seq![dir_item(n)] + u),
                }
            } else {
                Some(seq![dir_item(n)])
            },
        }
    }
}

/// The items answering each path of `ps` in turn.
pub open spec fn query_items(s: Seq<SidecarEntry>, ps: Seq<Seq<char>>, expand: bool) -> Option<Seq<ItemView>>
    decreases ps.len(),
{
    if ps.len() == 0 {
        Some(Seq::empty())
    } else {
        match (query_items(s, ps.drop_last(), expand), path_items(s, ps.last(), expand)) {
            (Some(a), Some(b)) => Some(a + b),
            _ => None,
        }
    }
}

/// `items` with later repeats of a (kind, path) pair left out.
pub open spec fn dedup_items(items: Seq<ItemView>) -> Seq<ItemView>
    decreases items.len(),
{
    if items.len() == 0 {
        items
    } else {
        let d = dedup_items(items.drop_last());
        let x = items.last();
        if exists|j: int| 0 <= j < d.len() && d[j].0 == x.0 && d[j].1 == x.1 {
            d
        } else {
            d.push(x)
        }
    }
}

pub open spec fn nonempty_paths(ps: Seq<Seq<char>>) -> Seq<Seq<char>>
    decreases ps.len(),
{
    if ps.len() == 0 {
        ps
    } else if ps.last().len() == 0 {
        nonempty_paths(ps.drop_last())
    } else {
        nonempty_paths(ps.drop_last()).push(ps.last())
    }
}

/// The answer to a query for `paths` (empty strings ignored; none at all
/// asks for the root) with or without expansion, repeats removed; `None`
/// when an index entry that the answer needs has no size.
pub open spec fn paths_info_spec(s: Seq<SidecarEntry>, paths: Seq<Seq<char>>, expand: bool) -> Option<Seq<ItemView>> {
    let ps = nonempty_paths(paths);
    let raw = if ps.len() == 0 {
        path_items(s, Seq::empty(), expand)
    } else {
        query_items(s, ps, expand)
    };
    match raw {
        Some(items) => Some(dedup_items(items)),
        None => None,
    }
}

fn copy_opt(o: &Option<String>) -> (r: Option<String>)
    ensures
        opt_str(r) == opt_str(*o),
{
    match o {
        Some(x) => Some(x.clone()),
        None => None,
    }
}

fn i64_of(v: Option<i128>) -> (r: Option<i64>)
    ensures
        r == fits_i64(v),
{
    match v {
        Some(x) => if i64::MIN as i128 <= x && x <= i64::MAX as i128 {
            Some(x as i64)
        } else {
            None
        },
        None => None,
    }
}

fn record_of(e: &SidecarEntry, lfs_default: bool) -> (r: Option<PathItem>)
    ensures
        match r {
            Some(it) => record_spec(*e, lfs_default) == Some(item_view(it)),
            None => record_spec(*e, lfs_default) is None,
        },
{
    let size = match i64_of(e.size) {
        Some(z) => z,
        None => match &e.lfs {
            Some(l) => match i64_of(l.size) {
                Some(z) => z,
                None => {
                    return None;
                },
            },
            None => {
                return None;
            },
        },
    };
    let path = match &e.path {
        Some(p) => p.clone(),
        None => String::new(),
    };
    let lfs = match &e.lfs {
        Some(l) => {
            let ls = if lfs_default {
                match i64_of(l.size) {
                    Some(x) => Some(x),
                    None => Some(size),
                }
            } else {
                i64_of(l.size)
            };
            Some(LfsSummary { oid: copy_opt(&l.oid), size: ls })
        },
        None => None,
    };
    Some(PathItem::File(PathInfo { path, size, oid: copy_opt(&e.oid), lfs }))
}

fn starts_with_exec(s: &Vec<char>, p: &Vec<char>) -> (r: bool)
    ensures
        r == starts_with(s@, p@),
{
    if s.len() < p.len() {
        return false;
    }
    let mut i: usize = 0;
    while i < p.len()
        invariant
            p@.len() <= s@.len(),
            i <= p@.len(),
            forall|j: int| 0 <= j < i ==> s@[j] == p@[j],
        decreases p@.len() - i,
    {
        if s[i] != p[i] {
            assert(s@.take(p@.len() as int)[i as int] != p@[i as int]);
            return false;
        }
        i = i + 1;
    }
    assert(s@.take(p@.len() as int) =~= p@);
    true
}

proof fn lemma_records_under_none(s: Seq<SidecarEntry>, k: int, prefix: Seq<char>, lfs_default: bool)
    requires
        0 <= k <= s.len(),
        records_under(s.take(k), prefix, lfs_default) is None,
    ensures
        records_under(s, prefix, lfs_default) is None,
    decreases s.len(),
{
    if k < s.len() {
        assert(s.drop_last().take(k) =~= s.take(k));
        lemma_records_under_none(s.drop_last(), k, prefix, lfs_default);
    } else {
        assert(s.take(k) =~= s);
    }
}

fn records_under_exec(sc_map: &SidecarMap, prefix: &Vec<char>, lfs_default: bool) -> (r: Option<Vec<PathItem>>)
    ensures
        match r {
            Some(v) => records_under(sc_map.entries(), prefix@, lfs_default) == Some(items_view(v@)),
            None => records_under(sc_map.entries(), prefix@, lfs_default) is None,
        },
{
    let ghost es = sc_map.entries();
    let mut out: Vec<PathItem> = Vec::new();
    let mut i: usize = 0;
    assert(es.take(0) =~= Seq::<SidecarEntry>::empty());
    assert(items_view(out@) =~= Seq::<ItemView>::empty());
    while i < sc_map.len()
        invariant
            es == sc_map.entries(),
            i <= es.len(),
            records_under(es.take(i as int), prefix@, lfs_default) == Some(items_view(out@)),
        decreases es.len() - i,
    {
        let e = sc_map.entry(i);
        assert(es.take(i + 1).drop_last() =~= es.take(i as int));
        assert(es.take(i + 1).last() == es[i as int]);
        let name = match &e.path {
            Some(p) => chars_of(p.as_str()),
            None => Vec::new(),
        };
        assert(name@ == name_of(es[i as int]));
        if starts_with_exec(&name, prefix) {
            match record_of(e, lfs_default) {
                None => {
                    proof {
                        lemma_records_under_none(es, i + 1, prefix@, lfs_default);
                    }
                    return None;
                },
                Some(it) => {
                    let ghost before = items_view(out@);
                    let ghost iv = item_view(it);
                    out.push(it);
                    assert(items_view(out@) =~= before.push(iv));
                },
            }
        }
        i = i + 1;
    }
    assert(es.take(es.len() as int) =~= es);
    Some(out)
}

fn query_name_exec(t: &Vec<char>) -> (r: Vec<char>)
    ensures
        r@ == slashes_forward(drop_slashes(t@)),
{
    let mut lo: usize = 0;
    assert(t@.skip(0) =~= t@);
    while lo < t.len() && t[lo] == '/'
        invariant
            lo <= t@.len(),
            drop_slashes(t@) == drop_slashes(t@.skip(lo as int)),
        decreases t@.len() - lo,
    {
        assert(t@.skip(lo as int).drop_first() =~= t@.skip(lo + 1));
        lo = lo + 1;
    }
    let ghost d = t@.skip(lo as int);
    let mut out: Vec<char> = Vec::new();
    let mut i: usize = lo;
    while i < t.len()
        invariant
            lo <= i <= t@.len(),
            d == t@.skip(lo as int),
            out@ == slashes_forward(d.take(i - lo)),
        decreases t@.len() - i,
    {
        let c = t[i];
        out.push(if c == '\\' { '/' } else { c });
        assert(slashes_forward(d.take(i + 1 - lo)) =~= slashes_forward(d.take(i - lo)).push(
            if c == '\\' { '/' } else { c },
        ));
        i = i + 1;
    }
    assert(d.take(i - lo) =~= d);
    out
}

fn path_items_exec(sc_map: &SidecarMap, p: &String, expand: bool) -> (r: Option<Vec<PathItem>>)
    ensures
        match r {
            Some(v) => path_items(sc_map.entries(), p@, expand) == Some(items_view(v@)),
            None => path_items(sc_map.entries(), p@, expand) is None,
        },
{
    let t = trim_chars(&chars_of(p.as_str()));
    let root = t.len() == 0 || (t.len() == 1 && (t[0] == '/' || t[0] == '.'));
    assert(root == is_root_query(p@)) by {
        if t@.len() == 1 {
            if t@[0] == '/' {
                assert(t@ =~= seq!['/']);
            }
            if t@[0] == '.' {
                assert(t@ =~= seq!['.']);
            }
        }
    }
    if root {
        if expand {
            return records_under_exec(sc_map, &Vec::new(), false);
        } else {
            let v = vec![PathItem::Directory(String::new())];
            assert(items_view(v@) =~= seq![dir_item(Seq::empty())]);
            return Some(v);
        }
    }
    let n = query_name_exec(&t);
    let ns = string_of(&n);
    match sc_map.get(ns.as_str()) {
        Some(e) => match record_of(e, true) {
            None => None,
            Some(it) => {
                let v = vec![it];
                assert(items_view(v@) =~= seq![item_view(v@[0])]);
                Some(v)
            },
        },
        None => {
            if expand {
                let mut prefix = n.clone();
                assert(prefix@ == n@);
                if n.len() > 0 {
                    prefix.push('/');
                    assert(prefix@ =~= n@ + seq!['/']);
                }
                match records_under_exec(sc_map, &prefix, true) {
                    None => None,
                    Some(u) => {
                        let mut v = vec![PathItem::Directory(string_of(&n))];
                        let ghost head = items_view(v@);
                        let ghost uv = items_view(u@);
                        let mut u = u;
                        v.append(&mut u);
                        assert(items_view(v@) =~= head + uv);
                        assert(head =~= seq![dir_item(n@)]);
                        Some(v)
                    },
                }
            } else {
                let v = vec![PathItem::Directory(string_of(&n))];
                assert(items_view(v@) =~= seq![dir_item(n@)]);
                Some(v)
            }
        },
    }
}

proof fn lemma_query_items_none(s: Seq<SidecarEntry>, ps: Seq<Seq<char>>, k: int, expand: bool)
    requires
        0 <= k <= ps.len(),
        query_items(s, ps.take(k), expand) is None,
    ensures
        query_items(s, ps, expand) is None,
    decreases ps.len(),
{
    if k < ps.len() {
        assert(ps.drop_last().take(k) =~= ps.take(k));
        lemma_query_items_none(s, ps.drop_last(), k, expand);
    } else {
        assert(ps.take(k) =~= ps);
    }
}

fn same_key(a: &PathItem, b: &PathItem) -> (r: bool)
    ensures
        r == (item_view(*a).0 == item_view(*b).0 && item_view(*a).1 == item_view(*b).1),
{
    match (a, b) {
        (PathItem::File(x), PathItem::File(y)) => x.path == y.path,
        (PathItem::Directory(x), PathItem::Directory(y)) => *x == *y,
        _ => false,
    }
}

fn dedup_exec(raw: Vec<PathItem>) -> (r: Vec<PathItem>)
    ensures
        items_view(r@) == dedup_items(items_view(raw@)),
{
    let ghost orig = items_view(raw@);
    let ghost origv = raw@;
    let n = raw.len();
    let mut rest = raw;
    let mut out: Vec<PathItem> = Vec::new();
    let mut i: usize = 0;
    assert(orig.take(0) =~= Seq::<ItemView>::empty());
    assert(items_view(out@) =~= Seq::<ItemView>::empty());
    assert(origv.skip(0) =~= origv);
    while rest.len() > 0
        invariant
            i <= origv.len(),
            origv.len() == n,
            orig == items_view(origv),
            rest@ == origv.skip(i as int),
            items_view(out@) == dedup_items(orig.take(i as int)),
        decreases rest@.len(),
    {
        let x = rest.remove(0);
        assert(rest@ =~= origv.skip(i + 1));
        assert(orig.take(i + 1).drop_last() =~= orig.take(i as int));
        assert(orig.take(i + 1).last() == item_view(x));
        let ghost d = items_view(out@);
        let mut seen = false;
        let mut j: usize = 0;
        while j < out.len()
            invariant
                j <= out@.len(),
                d == items_view(out@),
                !seen ==> forall|k: int| 0 <= k < j ==> !(d[k].0 == item_view(x).0 && d[k].1 == item_view(x).1),
                seen ==> exists|k: int| 0 <= k < d.len() && d[k].0 == item_view(x).0 && d[k].1 == item_view(x).1,
            decreases out@.len() - j,
        {
            if same_key(&out[j], &x) {
                seen = true;
                assert(d[j as int] == item_view(out@[j as int]));
            }
            j = j + 1;
        }
        if !seen {
            let ghost xv = item_view(x);
            out.push(x);
            assert(items_view(out@) =~= d.push(xv));
        }
        i = i + 1;
    }
    assert(orig.take(i as int) =~= orig);
    out
}

/// Answers a path-info query over one repository's index: for each
/// non-empty requested path, the file record under that exact name, or a
/// directory item (followed, when `expand`, by the records of the files
/// below it); a blank, `/` or `.` path, or no path at all, stands for the
/// root. Repeated (kind, path) items are dropped. Fails when a record that
/// the answer needs has no size.
pub fn paths_info_items(sc_map: &SidecarMap, paths: &Vec<String>, expand: bool) -> (r: Result<Vec<PathItem>, ServeError>)
    ensures
        match r {
            Ok(v) => paths_info_spec(sc_map.entries(), strings_view(paths@), expand) == Some(items_view(v@)),
            Err(e) => e == ServeError::MetadataIncomplete && paths_info_spec(
                sc_map.entries(),
                strings_view(paths@),
                expand,
            ) is None,
        },
{
    let ghost pv = strings_view(paths@);
    let mut ps: Vec<String> = Vec::new();
    let mut i: usize = 0;
    assert(pv.take(0) =~= Seq::<Seq<char>>::empty());
    assert(strings_view(ps@) =~= Seq::<Seq<char>>::empty());
    while i < paths.len()
        invariant
            i <= paths@.len(),
            pv == strings_view(paths@),
            strings_view(ps@) == nonempty_paths(pv.take(i as int)),
        decreases paths@.len() - i,
    {
        assert(pv.take(i + 1).drop_last() =~= pv.take(i as int));
        assert(pv.take(i + 1).last() == paths@[i as int]@);
        if !paths[i].as_str().is_empty() {
            let ghost before = strings_view(ps@);
            ps.push(paths[i].clone());
            assert(strings_view(ps@) =~= before.push(paths@[i as int]@));
        } else {
            assert(paths@[i as int]@.len() == 0);
        }
        i = i + 1;
    }
    assert(pv.take(pv.len() as int) =~= pv);
    let ghost psv = strings_view(ps@);
    let raw = if ps.len() == 0 {
        let empty = String::new();
        match path_items_exec(sc_map, &empty, expand) {
            None => {
                return Err(ServeError::MetadataIncomplete);
            },
            Some(v) => v,
        }
    } else {
        let mut acc: Vec<PathItem> = Vec::new();
        let mut k: usize = 0;
        assert(psv.take(0) =~= Seq::<Seq<char>>::empty());
        assert(items_view(acc@) =~= Seq::<ItemView>::empty());
        while k < ps.len()
            invariant
                k <= ps@.len(),
                psv == strings_view(ps@),
                psv == nonempty_paths(pv),
                pv == strings_view(paths@),
                psv.len() > 0,
                query_items(sc_map.entries(), psv.take(k as int), expand) == Some(items_view(acc@)),
            decreases ps@.len() - k,
        {
            assert(psv.take(k + 1).drop_last() =~= psv.take(k as int));
            assert(psv.take(k + 1).last() == ps@[k as int]@);
            match path_items_exec(sc_map, &ps[k], expand) {
                None => {
                    proof {
                        lemma_query_items_none(sc_map.entries(), psv, k + 1, expand);
                    }
                    return Err(ServeError::MetadataIncomplete);
                },
                Some(v) => {
                    let ghost a = items_view(acc@);
                    let ghost b = items_view(v@);
                    let mut v = v;
                    acc.append(&mut v);
                    assert(items_view(acc@) =~= a + b);
                },
            }
            k = k + 1;
        }
        assert(psv.take(psv.len() as int) =~= psv);
        acc
    };
    Ok(dedup_exec(raw))
}

} // verus!
