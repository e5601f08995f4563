//! Lexical path handling: normalising a relative path, joining it under a
//! root and checking that a (canonical) path lies under that root.
use vstd::prelude::*;
use crate::text::{chars_of, chars_eq, append_chars, push_char, seqs_view};

verus! {

/// Name of the per-root metadata index file (`.paths-info.json`), which is
/// never served as content.
pub open spec fn sidecar_name_spec() -> Seq<char> {
    seq!['.', 'p', 'a', 't', 'h', 's', '-', 'i', 'n', 'f', 'o', '.', 'j', 's', 'o', 'n']
}

pub open spec fn is_sep(c: char) -> bool {
    c == '/' || c == '\\'
}

/// The pieces of `s` between separators (`/` or `\`), empty pieces included.
pub open spec fn split_segments(s: Seq<char>) -> Seq<Seq<char>>
    decreases s.len(),
{
    if s.len() == 0 {
        seq![Seq::<char>::empty()]
    } else {
        let rest = split_segments(s.drop_last());
        if is_sep(s.last()) {
            rest.push(Seq::<char>::empty())
        } else {
            rest.update(rest.len() - 1, rest.last().push(s.last()))
        }
    }
}

/// A segment that normalisation drops: empty or `.`.
pub open spec fn is_skip(seg: Seq<char>) -> bool {
    seg.len() == 0 || seg == seq!['.']
}

/// The parent segment `..`.
pub open spec fn is_up(seg: Seq<char>) -> bool {
    seg == seq!['.', '.']
}

/// One step of normalisation over a stack of retained segments; `None`
/// once a `..` has tried to climb above the start.
pub open spec fn norm_step(st: Option<Seq<Seq<char>>>, seg: Seq<char>) -> Option<Seq<Seq<char>>> {
    match st {
        None => None,
        Some(stack) => if is_skip(seg) {
            Some(stack)
        } else if is_up(seg) {
            if stack.len() == 0 {
                None
            } else {
                Some(stack.drop_last())
            }
        } else {
            Some(stack.push(seg))
        },
    }
}

/// The retained segments after normalising `segs` from the left.
pub open spec fn norm_segments(segs: Seq<Seq<char>>) -> Option<Seq<Seq<char>>>
    decreases segs.len(),
{
    if segs.len() == 0 {
        Some(Seq::empty())
    } else {
        norm_step(norm_segments(segs.drop_last()), segs.last())
    }
}

/// Segments joined with `/`.
pub open spec fn join_segments(st: Seq<Seq<char>>) -> Seq<char>
    decreases st.len(),
{
    if st.len() == 0 {
        Seq::empty()
    } else if st.len() == 1 {
        st[0]
    } else {
        join_segments(st.drop_last()) + seq!['/'] + st.last()
    }
}

pub open spec fn is_absolute(s: Seq<char>) -> bool {
    s.len() > 0 && s[0] == '/'
}

/// The normal form of a relative path, or `None` when it is absolute or
/// climbs above its start.
pub open spec fn normalized(s: Seq<char>) -> Option<Seq<char>> {
    if is_absolute(s) {
        None
    } else {
        match norm_segments(split_segments(s)) {
            Some(st) => Some(join_segments(st)),
            None => None,
        }
    }
}

fn is_dot(seg: &Vec<char>) -> (r: bool)
    ensures
        r == (seg@ == seq!['.']),
{
    if seg.len() == 1 && seg[0] == '.' {
        assert(seg@ =~= seq!['.']);
        true
    } else {
        false
    }
}

fn is_dot_dot(seg: &Vec<char>) -> (r: bool)
    ensures
        r == is_up(seg@),
{
    if seg.len() == 2 && seg[0] == '.' && seg[1] == '.' {
        assert(seg@ =~= seq!['.', '.']);
        true
    } else {
        false
    }
}

fn apply_segment(stack: &mut Vec<Vec<char>>, failed: &mut bool, seg: Vec<char>)
    ensures
        (if *final(failed) { None } else { Some(seqs_view(final(stack)@)) }) == norm_step(
            if *old(failed) { None } else { Some(seqs_view(old(stack)@)) },
            seg@,
        ),
{
    if *failed {
        return;
    }
    if seg.len() == 0 || is_dot(&seg) {
        return;
    }
    if is_dot_dot(&seg) {
        if stack.len() == 0 {
            *failed = true;
        } else {
            stack.pop();
            assert(seqs_view(stack@) =~= seqs_view(old(stack)@).drop_last());
        }
        return;
    }
    let ghost sv = seg@;
    stack.push(seg);
    assert(seqs_view(stack@) =~= seqs_view(old(stack)@).push(sv));
}

pub(crate) fn join_stack(stack: &Vec<Vec<char>>) -> (r: String)
    ensures
        r@ == join_segments(seqs_view(stack@)),
{
    let ghost sv = seqs_view(stack@);
    let mut out = String::new();
    let mut k: usize = 0;
    while k < stack.len()
        invariant
            k <= stack@.len(),
            sv == seqs_view(stack@),
            out@ == join_segments(sv.take(k as int)),
        decreases stack@.len() - k,
    {
        proof {
            assert(sv.take(k + 1).drop_last() =~= sv.take(k as int));
        }
        if k > 0 {
            push_char(&mut out, '/');
        } else {
            assert(sv.take(0) =~= Seq::<Seq<char>>::empty());
        }
        append_chars(&mut out, &stack[k]);
        k = k + 1;
    }
    proof {
        assert(sv.take(stack@.len() as int) =~= sv);
    }
    out
}

/// Normalises a relative path: splits on `/` and `\`, drops empty and `.`
/// segments, lets `..` remove the last retained segment, and joins the rest
/// with `/`. Absolute paths, and paths whose `..` would climb above the
/// start, give `None`.
pub fn normalize_rel(rel: &str) -> (r: Option<String>)
    ensures
        match r {
            Some(p) => normalized(rel@) == Some(p@),
            None => normalized(rel@) is None,
        },
{
    let cs = chars_of(rel);
    if cs.len() > 0 && cs[0] == '/' {
        return None;
    }
    let mut stack: Vec<Vec<char>> = Vec::new();
    let mut failed = false;
    let mut cur: Vec<char> = Vec::new();
    let ghost mut done: Seq<Seq<char>> = Seq::empty();
    let mut i: usize = 0;
    assert(cs@.take(0) =~= Seq::<char>::empty());
    while i < cs.len()
        invariant
            i <= cs@.len(),
            split_segments(cs@.take(i as int)) == done.push(cur@),
            norm_segments(done) == (if failed { None } else { Some(seqs_view(stack@)) }),
        decreases cs@.len() - i,
    {
        let c = cs[i];
        proof {
            assert(cs@.take(i + 1).drop_last() =~= cs@.take(i as int));
        }
        if c == '/' || c == '\\' {
            let seg = cur;
            cur = Vec::new();
            proof {
                assert(norm_segments(done.push(seg@)) == norm_step(norm_segments(done), seg@)) by {
                    assert(done.push(seg@).drop_last() =~= done);
                }
                done = done.push(seg@);
            }
            apply_segment(&mut stack, &mut failed, seg);
        } else {
            proof {
                assert(done.push(cur@).update(done.len() as int, cur@.push(c)) =~= done.push(cur@.push(c)));
            }
            cur.push(c);
        }
        i = i + 1;
    }
    proof {
        assert(cs@.take(cs@.len() as int) =~= cs@);
        assert(norm_segments(done.push(cur@)) == norm_step(norm_segments(done), cur@)) by {
            assert(done.push(cur@).drop_last() =~= done);
        }
    }
    apply_segment(&mut stack, &mut failed, cur);
    if failed {
        None
    } else {
        Some(join_stack(&stack))
    }
}

/// The last segment of a path that is neither empty nor `.`.
pub open spec fn final_segment(segs: Seq<Seq<char>>) -> Seq<char>
    decreases segs.len(),
{
    if segs.len() == 0 {
        Seq::empty()
    } else if is_skip(segs.last()) {
        final_segment(segs.drop_last())
    } else {
        segs.last()
    }
}

/// Splits `cs` at every separator, as `split_segments` does.
fn split_all(cs: &Vec<char>) -> (r: Vec<Vec<char>>)
    ensures
        seqs_view(r@) == split_segments(cs@),
{
    let mut out: Vec<Vec<char>> = Vec::new();
    let mut cur: Vec<char> = Vec::new();
    let mut i: usize = 0;
    assert(cs@.take(0) =~= Seq::<char>::empty());
    assert(seqs_view(out@).push(cur@) =~= seq![Seq::<char>::empty()]);
    while i < cs.len()
        invariant
            i <= cs@.len(),
            split_segments(cs@.take(i as int)) == seqs_view(out@).push(cur@),
        decreases cs@.len() - i,
    {
        let c = cs[i];
        proof {
            assert(cs@.take(i + 1).drop_last() =~= cs@.take(i as int));
        }
        if c == '/' || c == '\\' {
            let ghost old_out = seqs_view(out@);
            let ghost cv = cur@;
            out.push(cur);
            cur = Vec::new();
            assert(seqs_view(out@) =~= old_out.push(cv));
            assert(old_out.push(cv).push(Seq::<char>::empty()) =~= seqs_view(out@).push(cur@));
        } else {
            proof {
                let d = seqs_view(out@);
                assert(d.push(cur@).update(d.len() as int, cur@.push(c)) =~= d.push(cur@.push(c)));
            }
            cur.push(c);
        }
        i = i + 1;
    }
    assert(cs@.take(cs@.len() as int) =~= cs@);
    let ghost before = seqs_view(out@);
    let ghost cv = cur@;
    out.push(cur);
    assert(seqs_view(out@) =~= before.push(cv));
    out
}

fn sidecar_name_chars() -> (r: Vec<char>)
    ensures
        r@ == sidecar_name_spec(),
{
    let r = vec!['.', 'p', 'a', 't', 'h', 's', '-', 'i', 'n', 'f', 'o', '.', 'j', 's', 'o', 'n'];
    assert(r@ =~= sidecar_name_spec());
    r
}

/// Whether the final segment of `p` names the sidecar index file.
pub fn is_sidecar_path(p: &str) -> (r: bool)
    ensures
        r == (final_segment(split_segments(p@)) == sidecar_name_spec()),
{
    let cs = chars_of(p);
    let segs = split_all(&cs);
    let ghost sv = seqs_view(segs@);
    let mut k: usize = segs.len();
    assert(sv.take(k as int) =~= sv);
    while k > 0
        invariant
            k <= segs@.len(),
            sv == seqs_view(segs@),
            sv == split_segments(p@),
            final_segment(sv) == final_segment(sv.take(k as int)),
            forall|j: int| k <= j < segs@.len() ==> is_skip(#[trigger] sv[j]),
        decreases k,
    {
        let seg = &segs[k - 1];
        assert(sv.take(k as int).drop_last() =~= sv.take(k - 1));
        assert(sv[k - 1] == segs@[k - 1]@);
        if !(seg.len() == 0 || is_dot(seg)) {
            let name = sidecar_name_chars();
            assert(sv.take(k as int).last() == sv[k - 1]);
            return chars_eq(seg, &name);
        }
        k = k - 1;
    }
    false
}

/// `rel` (already normal) placed under `base`.
pub open spec fn joined(base: Seq<char>, rel: Seq<char>) -> Seq<char> {
    if rel.len() == 0 {
        base
    } else if base.len() > 0 && base.last() == '/' {
        base + rel
    } else {
        base + seq!['/'] + rel
    }
}

/// Whether the path `p` is `base` itself or lies below it, comparing whole
/// segments; both are taken to be canonical (no `.`, `..` or repeated `/`).
pub open spec fn within(base: Seq<char>, p: Seq<char>) -> bool {
    p == base || (p.len() > base.len() && p.take(base.len() as int) == base && (
    (base.len() > 0 && base.last() == '/') || p[base.len() as int] == '/'))
}

/// Normalises `rel` and places it under `base`; `None` when `rel` is
/// absolute or climbs above its start.
pub fn join_under(base: &str, rel: &str) -> (r: Option<String>)
    ensures
        match r {
            Some(p) => exists|n: Seq<char>| normalized(rel@) == Some(n) && p@ == joined(base@, n),
            None => normalized(rel@) is None,
        },
{
    match normalize_rel(rel) {
        None => None,
        Some(n) => {
            let nc = chars_of(n.as_str());
            let bc = chars_of(base);
            let mut out = String::new();
            append_chars(&mut out, &bc);
            if nc.len() > 0 {
                if !(bc.len() > 0 && bc[bc.len() - 1] == '/') {
                    push_char(&mut out, '/');
                }
                append_chars(&mut out, &nc);
            }
            assert(out@ == joined(base@, n@));
            Some(out)
        },
    }
}

/// Whether the canonical path `p` is `base` or lies below it.
pub fn path_within(base: &str, p: &str) -> (r: bool)
    ensures
        r == within(base@, p@),
{
    let b = chars_of(base);
    let c = chars_of(p);
    if chars_eq(&b, &c) {
        return true;
    }
    if c.len() <= b.len() {
        return false;
    }
    let mut i: usize = 0;
    while i < b.len()
        invariant
            b@.len() < c@.len(),
            b@ == base@,
            c@ == p@,
            i <= b@.len(),
            forall|j: int| 0 <= j < i ==> b@[j] == c@[j],
        decreases b@.len() - i,
    {
        if b[i] != c[i] {
            assert(c@.take(b@.len() as int)[i as int] != b@[i as int]);
            assert(c@.take(b@.len() as int) != b@);
            return false;
        }
        i = i + 1;
    }
    assert(c@.take(b@.len() as int) =~= b@);
    (b.len() > 0 && b[b.len() - 1] == '/') || c[b.len()] == '/'
}

/// Names minus `..` segments over `segs` (empty and `.` segments count
/// nothing): how deep below its start a path walks.
pub open spec fn balance(segs: Seq<Seq<char>>) -> int
    decreases segs.len(),
{
    if segs.len() == 0 {
        0
    } else {
        balance(segs.drop_last()) + if is_skip(segs.last()) {
            0int
        } else if is_up(segs.last()) {
            -1int
        } else {
            1int
        }
    }
}

/// Some prefix of the path has more `..` segments than names: it climbs
/// above its start.
pub open spec fn escapes(segs: Seq<Seq<char>>) -> bool {
    exists|k: int| 1 <= k <= segs.len() && #[trigger] balance(segs.take(k)) < 0
}

proof fn lemma_norm_balance(segs: Seq<Seq<char>>)
    ensures
        norm_segments(segs) is None <==> escapes(segs),
        norm_segments(segs) matches Some(st) ==> st.len() == balance(segs),
    decreases segs.len(),
{
    if segs.len() > 0 {
        let pre = segs.drop_last();
        let n = segs.len() as int;
        lemma_norm_balance(pre);
        assert(segs.take(n) =~= segs);
        assert forall|k: int| 1 <= k < n implies #[trigger] segs.take(k) == pre.take(k) by {
            assert(segs.take(k) =~= pre.take(k));
        }
        assert(segs.take(n).drop_last() =~= pre);
        if escapes(pre) {
            let k = choose|k: int| 1 <= k <= pre.len() && #[trigger] balance(pre.take(k)) < 0;
            assert(balance(segs.take(k)) < 0);
        } else {
            assert(pre.take(pre.len() as int) =~= pre);
            if pre.len() > 0 {
                assert(balance(pre.take(pre.len() as int)) >= 0);
            }
            assert(balance(pre) >= 0);
            assert(balance(segs.take(n)) == balance(segs));
            if balance(segs) < 0 {
                assert(escapes(segs));
            }
            if escapes(segs) {
                let k = choose|k: int| 1 <= k <= segs.len() && #[trigger] balance(segs.take(k)) < 0;
                if k < n {
                    assert(balance(pre.take(k)) < 0);
                }
            }
        }
    }
}

/// A path that never climbs above its start normalises, and placed under
/// any root it stays under that root; a relative path that does climb
/// above its start is refused.
pub proof fn lemma_secure_join_contained(base: Seq<char>, rel: Seq<char>)
    requires
        !is_absolute(rel),
    ensures
        escapes(split_segments(rel)) <==> normalized(rel) is None,
        !escapes(split_segments(rel)) ==> within(base, joined(base, normalized(rel)->0)),
{
    lemma_norm_balance(split_segments(rel));
    if let Some(n) = normalized(rel) {
        let p = joined(base, n);
        if n.len() > 0 {
            if base.len() > 0 && base.last() == '/' {
                assert(p.take(base.len() as int) =~= base);
            } else {
                assert(p.take(base.len() as int) =~= base);
                assert(p[base.len() as int] == '/');
            }
        }
    }
}

/// Index of the last `/` of `p`.
pub open spec fn last_slash(p: Seq<char>) -> Option<int>
    decreases p.len(),
{
    if p.len() == 0 {
        None
    } else if p.last() == '/' {
        Some(p.len() - 1)
    } else {
        last_slash(p.drop_last())
    }
}

/// The parent of a path without trailing or repeated `/`: what precedes
/// its last `/` (`/` itself for a child of the root, which is its own
/// parent; empty for a bare name).
pub open spec fn parent_spec(p: Seq<char>) -> Seq<char> {
    match last_slash(p) {
        None => Seq::empty(),
        Some(i) => if i == 0 {
            seq!['/']
        } else {
            p.take(i)
        },
    }
}

pub open spec fn ancestor(p: Seq<char>, k: nat) -> Seq<char>
    decreases k,
{
    if k == 0 {
        p
    } else {
        ancestor(parent_spec(p), (k - 1) as nat)
    }
}

/// The directory of the repository that holds `filepath`, whose name
/// inside the repository is `filename`: `filepath` less as many trailing
/// components as `filename` has.
pub open spec fn repo_root_spec(filepath: Seq<char>, filename: Seq<char>) -> Seq<char> {
    ancestor(filepath, crate::text::split_on(filename, '/').len())
}

fn parent_of(p: &Vec<char>) -> (r: Vec<char>)
    ensures
        r@ == parent_spec(p@),
{
    let mut k: usize = p.len();
    assert(p@.take(k as int) =~= p@);
    while k > 0 && p[k - 1] != '/'
        invariant
            k <= p@.len(),
            last_slash(p@) == last_slash(p@.take(k as int)),
        decreases k,
    {
        assert(p@.take(k as int).drop_last() =~= p@.take(k - 1));
        k = k - 1;
    }
    if k == 0 {
        Vec::new()
    } else if k == 1 {
        vec!['/']
    } else {
        assert(p@.take(k as int).last() == '/');
        crate::text::sub_vec(p, 0, k - 1)
    }
}

/// The repository directory of the file at `filepath` (a canonical path)
/// whose path inside the repository is `filename`.
pub fn repo_root_of(filepath: &str, filename: &str) -> (r: String)
    ensures
        r@ == repo_root_spec(filepath@, filename@),
{
    let parts = crate::text::split_chars(&chars_of(filename), '/');
    let n = parts.len();
    let mut cur = chars_of(filepath);
    let mut i: usize = 0;
    while i < n
        invariant
            i <= n,
            n == crate::text::split_on(filename@, '/').len(),
            ancestor(filepath@, n as nat) == ancestor(cur@, (n - i) as nat),
        decreases n - i,
    {
        cur = parent_of(&cur);
        i = i + 1;
    }
    crate::text::string_of(&cur)
}

} // verus!
