//! Response headers of file responses, as an ordered list of
//! (lower-case name, value) pairs in which a name occurs at most once.
use vstd::prelude::*;
use crate::text::{chars_of, push_char};

verus! {

pub open spec fn digit_char_spec(d: nat) -> char {
    if d == 0 { '0' } else if d == 1 { '1' } else if d == 2 { '2' } else if d == 3 { '3' }
    else if d == 4 { '4' } else if d == 5 { '5' } else if d == 6 { '6' } else if d == 7 { '7' }
    else if d == 8 { '8' } else { '9' }
}

/// Decimal digits of `n`, without sign or leading zeros.
pub open spec fn dec_string(n: nat) -> Seq<char>
    decreases n,
{
    if n < 10 {
        seq![digit_char_spec(n)]
    } else {
        dec_string(n / 10).push(digit_char_spec(n % 10))
    }
}

fn digit_char(d: u64) -> (r: char)
    requires
        d < 10,
    ensures
        r == digit_char_spec(d as nat),
{
    if d == 0 { '0' } else if d == 1 { '1' } else if d == 2 { '2' } else if d == 3 { '3' }
    else if d == 4 { '4' } else if d == 5 { '5' } else if d == 6 { '6' } else if d == 7 { '7' }
    else if d == 8 { '8' } else { '9' }
}

/// Appends the decimal digits of `n` to `s`.
pub fn push_decimal(s: &mut String, n: u64)
    ensures
        final(s)@ == old(s)@ + dec_string(n as nat),
    decreases n,
{
    if n < 10 {
        push_char(s, digit_char(n));
        assert(old(s)@.push(digit_char_spec(n as nat)) =~= old(s)@ + dec_string(n as nat));
    } else {
        push_decimal(s, n / 10);
        push_char(s, digit_char(n % 10));
        assert(old(s)@ + dec_string((n / 10) as nat) + seq![digit_char_spec((n % 10) as nat)]
            =~= old(s)@ + dec_string(n as nat));
    }
}

/// The decimal digits of `n`.
pub fn decimal(n: u64) -> (r: String)
    ensures
        r@ == dec_string(n as nat),
{
    let mut s = String::new();
    push_decimal(&mut s, n);
    assert(Seq::<char>::empty() + dec_string(n as nat) =~= dec_string(n as nat));
    s
}

/// Characters that an HTTP header value may hold: tab, and everything from
/// space upward but DEL.
pub open spec fn header_char(c: char) -> bool {
    c == '\t' || (' ' <= c && c != '\x7f')
}

pub open spec fn header_safe(s: Seq<char>) -> bool {
    forall|i: int| 0 <= i < s.len() ==> header_char(#[trigger] s[i])
}

/// Whether `s` can stand as a header value.
pub fn is_header_safe(s: &str) -> (r: bool)
    ensures
        r == header_safe(s@),
{
    let c = chars_of(s);
    let mut i: usize = 0;
    while i < c.len()
        invariant
            c@ == s@,
            i <= c@.len(),
            forall|j: int| 0 <= j < i ==> header_char(#[trigger] c@[j]),
        decreases c@.len() - i,
    {
        let x = c[i];
        if !(x == '\t' || (' ' <= x && x != '\x7f')) {
            assert(!header_char(c@[i as int]));
            return false;
        }
        i = i + 1;
    }
    true
}

/// Index of the entry named `n`.
pub open spec fn index_of_name(h: Seq<(Seq<char>, Seq<char>)>, n: Seq<char>) -> Option<int>
    decreases h.len(),
{
    if h.len() == 0 {
        None
    } else if h.last().0 == n {
        Some(h.len() - 1)
    } else {
        index_of_name(h.drop_last(), n)
    }
}

/// Sets header `n` to `v`: replaces the value in place when `n` is present,
/// else appends.
pub open spec fn header_insert(h: Seq<(Seq<char>, Seq<char>)>, n: Seq<char>, v: Seq<char>) -> Seq<(Seq<char>, Seq<char>)> {
    match index_of_name(h, n) {
        Some(i) => h.update(i, (n, v)),
        None => h.push((n, v)),
    }
}

pub open spec fn header_get(h: Seq<(Seq<char>, Seq<char>)>, n: Seq<char>) -> Option<Seq<char>> {
    match index_of_name(h, n) {
        Some(i) => Some(h[i].1),
        None => None,
    }
}

/// The headers of one response.
pub struct Headers {
    items: Vec<(String, String)>,
}

pub open spec fn pairs_view(v: Seq<(String, String)>) -> Seq<(Seq<char>, Seq<char>)> {
    v.map_values(|p: (String, String)| (p.0@, p.1@))
}

impl Headers {
    /// The (name, value) pairs, in order.
    pub closed spec fn items(&self) -> Seq<(Seq<char>, Seq<char>)> {
        pairs_view(self.items@)
    }

    pub fn new() -> (r: Self)
        ensures
            r.items() == Seq::<(Seq<char>, Seq<char>)>::empty(),
    {
        let r = Headers { items: Vec::new() };
        assert(r.items() =~= Seq::<(Seq<char>, Seq<char>)>::empty());
        r
    }

    fn find(&self, name: &String) -> (r: Option<usize>)
        ensures
            match r {
                Some(i) => index_of_name(self.items(), name@) == Some(i as int) && i < self.items@.len(),
                None => index_of_name(self.items(), name@) is None,
            },
    {
        let ghost h = self.items();
        let mut k: usize = self.items.len();
        assert(h.take(k as int) =~= h);
        while k > 0
            invariant
                k <= self.items@.len(),
                h == self.items(),
                index_of_name(h, name@) == index_of_name(h.take(k as int), name@),
            decreases k,
        {
            assert(h.take(k as int).drop_last() =~= h.take(k - 1));
            if self.items[k - 1].0 == *name {
                return Some(k - 1);
            }
            k = k - 1;
        }
        None
    }

    /// Sets header `name` to `value`, replacing an earlier value.
    pub fn insert(&mut self, name: &str, value: String)
        ensures
            final(self).items() == header_insert(old(self).items(), name@, value@),
    {
        let n = name.to_owned();
        let ghost vv = value@;
        match self.find(&n) {
            Some(i) => {
                self.items.set(i, (n, value));
                assert(self.items() =~= old(self).items().update(i as int, (name@, vv)));
            },
            None => {
                self.items.push((n, value));
                assert(self.items() =~= old(self).items().push((name@, vv)));
            },
        }
    }

    /// The value of header `name`.
    pub fn get(&self, name: &str) -> (r: Option<&String>)
        ensures
            match r {
                Some(v) => header_get(self.items(), name@) == Some(v@),
                None => header_get(self.items(), name@) is None,
            },
    {
        let n = name.to_owned();
        match self.find(&n) {
            Some(i) => Some(&self.items[i].1),
            None => None,
        }
    }

    /// Number of headers.
    pub fn len(&self) -> (r: usize)
        ensures
            r == self.items().len(),
    {
        self.items.len()
    }

    /// The header at position `i`, as (name, value).
    pub fn pair(&self, i: usize) -> (r: (&String, &String))
        requires
            i < self.items().len(),
        ensures
            (r.0@, r.1@) == self.items()[i as int],
    {
        (&self.items[i].0, &self.items[i].1)
    }
}

/// The value of a revision header: the revision, or `-` when it cannot
/// stand in a header.
pub open spec fn revision_value(rev: Seq<char>) -> Seq<char> {
    if header_safe(rev) {
        rev
    } else {
        "-"@
    }
}

/// The headers shared by every file response carrying `size` body bytes.
pub open spec fn common_headers(rev: Seq<char>, size: nat) -> Seq<(Seq<char>, Seq<char>)> {
    let h0 = Seq::<(Seq<char>, Seq<char>)>::empty();
    let h1 = header_insert(h0, "content-length"@, dec_string(size));
    let h2 = header_insert(h1, "content-type"@, "application/octet-stream"@);
    let h3 = header_insert(h2, "accept-ranges"@, "bytes"@);
    let h4 = header_insert(h3, "x-repo-commit"@, revision_value(rev));
    header_insert(h4, "x-revision"@, revision_value(rev))
}

fn revision_header(revision: &str) -> (r: String)
    ensures
        r@ == revision_value(revision@),
{
    if is_header_safe(revision) {
        revision.to_owned()
    } else {
        String::from_str("-")
    }
}

/// Builds the headers common to file responses: length of the body, octet
/// stream type, byte ranges accepted, and the revision echoed twice.
pub fn file_headers_common(revision: &str, size: u64) -> (r: Headers)
    ensures
        r.items() == common_headers(revision@, size as nat),
{
    let mut h = Headers::new();
    h.insert("content-length", decimal(size));
    h.insert("content-type", String::from_str("application/octet-stream"));
    h.insert("accept-ranges", String::from_str("bytes"));
    h.insert("x-repo-commit", revision_header(revision));
    h.insert("x-revision", revision_header(revision));
    h
}

/// `bytes <start>-<end>/<total>`.
pub open spec fn content_range_value(start: nat, end: nat, total: nat) -> Seq<char> {
    "bytes "@ + dec_string(start) + "-"@ + dec_string(end) + "/"@ + dec_string(total)
}

/// Sets `content-range` to `bytes <start>-<end>/<total>`.
pub fn set_content_range(headers: &mut Headers, start: u64, end: u64, total: u64)
    ensures
        final(headers).items() == header_insert(
            old(headers).items(),
            "content-range"@,
            content_range_value(start as nat, end as nat, total as nat),
        ),
{
    let mut v = String::from_str("bytes ");
    push_decimal(&mut v, start);
    v.append("-");
    push_decimal(&mut v, end);
    v.append("/");
    push_decimal(&mut v, total);
    headers.insert("content-range", v);
}

} // verus!
