//! Parsing of an HTTP `Range` header against a known resource size.
use vstd::prelude::*;
use crate::text::{chars_of, sub_vec};

verus! {

/// Outcome of reading a `Range` header.
#[derive(Debug, Clone, Copy, PartialEq, Eq, Structural)]
pub enum RangeParse {
    /// Not a byte range this server understands: serve the whole body.
    Invalid,
    /// A byte range that lies outside the resource.
    Unsatisfiable,
    /// The inclusive byte window `(start, end)`.
    Valid(u64, u64),
}

/// Characters that `str::trim` removes (Unicode `White_Space`).
pub open spec fn is_ws(c: char) -> bool {
    let u = c as u32;
    (0x9 <= u && u <= 0xD) || u == 0x20 || u == 0x85 || u == 0xA0 || u == 0x1680 || (0x2000 <= u
        && u <= 0x200A) || u == 0x2028 || u == 0x2029 || u == 0x202F || u == 0x205F || u == 0x3000
}

pub open spec fn trim_start(s: Seq<char>) -> Seq<char>
    decreases s.len(),
{
    if s.len() > 0 && is_ws(s[0]) {
        trim_start(s.drop_first())
    } else {
        s
    }
}

pub open spec fn trim_end(s: Seq<char>) -> Seq<char>
    decreases s.len(),
{
    if s.len() > 0 && is_ws(s.last()) {
        trim_end(s.drop_last())
    } else {
        s
    }
}

pub open spec fn trim(s: Seq<char>) -> Seq<char> {
    trim_end(trim_start(s))
}

/// The characters of `s` before the first `c` (all of `s` when there is none).
pub open spec fn head_until(s: Seq<char>, c: char) -> Seq<char>
    decreases s.len(),
{
    if s.len() == 0 || s[0] == c {
        Seq::empty()
    } else {
        seq![s[0]] + head_until(s.drop_first(), c)
    }
}

/// The characters of `s` after the first `c` (empty when there is none).
pub open spec fn tail_after(s: Seq<char>, c: char) -> Seq<char>
    decreases s.len(),
{
    if s.len() == 0 {
        Seq::empty()
    } else if s[0] == c {
        s.drop_first()
    } else {
        tail_after(s.drop_first(), c)
    }
}

pub open spec fn has_char(s: Seq<char>, c: char) -> bool {
    exists|i: int| 0 <= i < s.len() && s[i] == c
}

/// `bytes`, in any mix of ASCII case.
pub open spec fn is_bytes_unit(u: Seq<char>) -> bool {
    u.len() == 5 && (u[0] == 'b' || u[0] == 'B') && (u[1] == 'y' || u[1] == 'Y') && (u[2] == 't'
        || u[2] == 'T') && (u[3] == 'e' || u[3] == 'E') && (u[4] == 's' || u[4] == 'S')
}

pub open spec fn is_digit(c: char) -> bool {
    '0' <= c && c <= '9'
}

pub open spec fn digit_value(c: char) -> nat {
    (c as u32 - '0' as u32) as nat
}

pub open spec fn all_digits(s: Seq<char>) -> bool {
    forall|i: int| 0 <= i < s.len() ==> is_digit(#[trigger] s[i])
}

/// The number that the decimal digits `s` denote.
pub open spec fn dec_value(s: Seq<char>) -> nat
    decreases s.len(),
{
    if s.len() == 0 {
        0
    } else {
        dec_value(s.drop_last()) * 10 + digit_value(s.last())
    }
}

/// What `u64::from_str` accepts: an optional `+`, then one or more decimal
/// digits whose value fits in a `u64`.
pub open spec fn parse_u64_spec(s: Seq<char>) -> Option<u64> {
    let t = if s.len() > 0 && s[0] == '+' {
        s.drop_first()
    } else {
        s
    };
    if t.len() > 0 && all_digits(t) && dec_value(t) <= u64::MAX {
        Some(dec_value(t) as u64)
    } else {
        None
    }
}

/// The outcome of a `Range` header `h` for a resource of `total` bytes.
/// Only the first comma-separated range counts.
pub open spec fn range_spec(h: Seq<char>, total: u64) -> RangeParse {
    let s = trim(h);
    let unit = head_until(s, '=');
    let rest = tail_after(s, '=');
    let first = trim(head_until(rest, ','));
    let a = head_until(first, '-');
    let b = tail_after(first, '-');
    if !is_bytes_unit(unit) || !has_char(first, '-') {
        RangeParse::Invalid
    } else if a.len() == 0 {
        match parse_u64_spec(b) {
            None => RangeParse::Invalid,
            Some(n) => if n == 0 {
                RangeParse::Invalid
            } else if total == 0 {
                RangeParse::Unsatisfiable
            } else {
                RangeParse::Valid(if n >= total { 0 } else { (total - n) as u64 }, (total - 1) as u64)
            },
        }
    } else {
        match parse_u64_spec(a) {
            None => RangeParse::Invalid,
            Some(start) => {
                let end_opt = if b.len() == 0 {
                    Some(if total == 0 { 0u64 } else { (total - 1) as u64 })
                } else {
                    parse_u64_spec(b)
                };
                match end_opt {
                    None => RangeParse::Invalid,
                    Some(end) => if start >= total {
                        RangeParse::Unsatisfiable
                    } else {
                        let e = if end >= total { (total - 1) as u64 } else { end };
                        if e < start {
                            RangeParse::Unsatisfiable
                        } else {
                            RangeParse::Valid(start, e)
                        }
                    },
                }
            },
        }
    }
}

fn is_ws_char(c: char) -> (r: bool)
    ensures
        r == is_ws(c),
{
    let u = c as u32;
    (0x9 <= u && u <= 0xD) || u == 0x20 || u == 0x85 || u == 0xA0 || u == 0x1680 || (0x2000 <= u
        && u <= 0x200A) || u == 0x2028 || u == 0x2029 || u == 0x202F || u == 0x205F || u == 0x3000
}

pub(crate) fn trim_chars(v: &Vec<char>) -> (r: Vec<char>)
    ensures
        r@ == trim(v@),
{
    let mut lo: usize = 0;
    assert(v@.skip(0) =~= v@);
    while lo < v.len() && is_ws_char(v[lo])
        invariant
            lo <= v@.len(),
            trim_start(v@) == trim_start(v@.skip(lo as int)),
        decreases v@.len() - lo,
    {
        assert(v@.skip(lo as int).drop_first() =~= v@.skip(lo + 1));
        lo = lo + 1;
    }
    let mut hi: usize = v.len();
    let ghost t = v@.skip(lo as int);
    assert(t.take(t.len() as int) =~= t);
    while hi > lo && is_ws_char(v[hi - 1])
        invariant
            lo <= hi <= v@.len(),
            t == v@.skip(lo as int),
            trim_end(t) == trim_end(t.take(hi - lo)),
        decreases hi,
    {
        assert(t.take(hi - lo).drop_last() =~= t.take(hi - 1 - lo));
        hi = hi - 1;
    }
    assert(t.take(hi - lo) =~= v@.subrange(lo as int, hi as int));
    sub_vec(v, lo, hi)
}

/// Splits `v` at its first `c`: what comes before, what comes after, and
/// whether there was one.
pub(crate) fn split_first(v: &Vec<char>, c: char) -> (r: (Vec<char>, Vec<char>, bool))
    ensures
        r.0@ == head_until(v@, c),
        r.1@ == tail_after(v@, c),
        r.2 == has_char(v@, c),
{
    let mut i: usize = 0;
    assert(v@.take(0) + v@.skip(0) =~= v@);
    while i < v.len() && v[i] != c
        invariant
            i <= v@.len(),
            forall|j: int| 0 <= j < i ==> v@[j] != c,
            head_until(v@, c) == v@.take(i as int) + head_until(v@.skip(i as int), c),
            tail_after(v@, c) == tail_after(v@.skip(i as int), c),
        decreases v@.len() - i,
    {
        let ghost s = v@.skip(i as int);
        assert(s.drop_first() =~= v@.skip(i + 1));
        assert(v@.take(i + 1) =~= v@.take(i as int) + seq![s[0]]);
        i = i + 1;
    }
    if i < v.len() {
        assert(v@.skip(i as int).drop_first() =~= v@.subrange(i + 1, v@.len() as int));
        (sub_vec(v, 0, i), sub_vec(v, i + 1, v.len()), true)
    } else {
        assert(v@.take(i as int) =~= v@.subrange(0, i as int));
        (sub_vec(v, 0, i), Vec::new(), false)
    }
}

proof fn lemma_dec_value_grows(s: Seq<char>, k: int)
    requires
        0 <= k <= s.len(),
    ensures
        dec_value(s.take(k)) <= dec_value(s),
    decreases s.len(),
{
    if k < s.len() {
        lemma_dec_value_grows(s.drop_last(), k);
        assert(s.drop_last().take(k) =~= s.take(k));
    } else {
        assert(s.take(k) =~= s);
    }
}

/// Reads a decimal `u64` as `u64::from_str` does.
pub fn parse_u64(v: &Vec<char>) -> (r: Option<u64>)
    ensures
        r == parse_u64_spec(v@),
{
    let start: usize = if v.len() > 0 && v[0] == '+' {
        1
    } else {
        0
    };
    let ghost t = if v@.len() > 0 && v@[0] == '+' {
        v@.drop_first()
    } else {
        v@
    };
    assert(t =~= v@.skip(start as int));
    if start >= v.len() {
        return None;
    }
    let mut acc: u64 = 0;
    let mut i: usize = start;
    assert(t.take(0) =~= Seq::<char>::empty());
    while i < v.len()
        invariant
            start <= i <= v@.len(),
            start < v@.len(),
            t == v@.skip(start as int),
            t == (if v@.len() > 0 && v@[0] == '+' {
                v@.drop_first()
            } else {
                v@
            }),
            forall|j: int| 0 <= j < i - start ==> is_digit(#[trigger] t[j]),
            acc == dec_value(t.take(i - start)),
        decreases v@.len() - i,
    {
        let c = v[i];
        if !('0' <= c && c <= '9') {
            assert(!is_digit(t[i - start]));
            assert(!all_digits(t));
            return None;
        }
        let d = (c as u32 - '0' as u32) as u64;
        assert(t.take(i + 1 - start).drop_last() =~= t.take(i - start));
        if acc > (u64::MAX - d) / 10 {
            proof {
                assert(dec_value(t.take(i + 1 - start)) > u64::MAX) by (nonlinear_arith)
                    requires
                        acc > (u64::MAX - d) / 10,
                        dec_value(t.take(i + 1 - start)) == acc * 10 + d,
                ;
                lemma_dec_value_grows(t, i + 1 - start);
            }
            return None;
        }
        assert(acc * 10 + d <= u64::MAX) by (nonlinear_arith)
            requires
                acc <= (u64::MAX - d) / 10,
                d <= 9,
        ;
        acc = acc * 10 + d;
        i = i + 1;
    }
    assert(t.take(t.len() as int) =~= t);
    Some(acc)
}

fn is_bytes(u: &Vec<char>) -> (r: bool)
    ensures
        r == is_bytes_unit(u@),
{
    u.len() == 5 && (u[0] == 'b' || u[0] == 'B') && (u[1] == 'y' || u[1] == 'Y') && (u[2] == 't'
        || u[2] == 'T') && (u[3] == 'e' || u[3] == 'E') && (u[4] == 's' || u[4] == 'S')
}

/// Reads a `Range` header for a resource of `total` bytes. Accepts
/// `bytes=<start>-<end>`, `bytes=<start>-` and `bytes=-<suffix>`, honouring
/// only the first comma-separated range. Bad syntax gives `Invalid`; a window
/// that starts at or past the end gives `Unsatisfiable`; an end past the
/// last byte is clamped to it.
pub fn parse_range(h: &str, total: u64) -> (r: RangeParse)
    ensures
        r == range_spec(h@, total),
        r matches RangeParse::Valid(s, e) ==> s <= e < total,
{
    let hc = chars_of(h);
    let s = trim_chars(&hc);
    let (unit, rest, _) = split_first(&s, '=');
    let (first0, _, _) = split_first(&rest, ',');
    let first = trim_chars(&first0);
    let (a, b, has_dash) = split_first(&first, '-');
    if !is_bytes(&unit) || !has_dash {
        return RangeParse::Invalid;
    }
    if a.len() == 0 {
        match parse_u64(&b) {
            None => RangeParse::Invalid,
            Some(n) => {
                if n == 0 {
                    RangeParse::Invalid
                } else if total == 0 {
                    RangeParse::Unsatisfiable
                } else {
                    let start = if n >= total {
                        0
                    } else {
                        total - n
                    };
                    RangeParse::Valid(start, total - 1)
                }
            },
        }
    } else {
        let start = match parse_u64(&a) {
            None => {
                return RangeParse::Invalid;
            },
            Some(x) => x,
        };
        let end = if b.len() == 0 {
            if total == 0 {
                0
            } else {
                total - 1
            }
        } else {
            match parse_u64(&b) {
                None => {
                    return RangeParse::Invalid;
                },
                Some(x) => x,
            }
        };
        if start >= total {
            return RangeParse::Unsatisfiable;
        }
        let e = if end >= total {
            total - 1
        } else {
            end
        };
        if e < start {
            RangeParse::Unsatisfiable
        } else {
            RangeParse::Valid(start, e)
        }
    }
}

} // verus!
