//! Helpers for request logging: header redaction and the client address.
use vstd::prelude::*;
use crate::range::{trim, trim_chars};
use crate::text::{chars_of, string_of, split_chars, split_on};

verus! {

/// `a`, lower-cased in ASCII, equals `b` (which is lower case).
pub open spec fn eq_lower(a: Seq<char>, b: Seq<char>) -> bool {
    a.len() == b.len() && forall|i: int|
        0 <= i < a.len() ==> (#[trigger] a[i] == b[i] || ('a' <= b[i] && b[i] <= 'z' && a[i] as u32
            + 32 == b[i] as u32))
}

/// Header names whose values are never logged.
pub open spec fn is_secret_header(k: Seq<char>) -> bool {
    eq_lower(k, "authorization"@) || eq_lower(k, "cookie"@) || eq_lower(k, "set-cookie"@)
        || eq_lower(k, "proxy-authorization"@) || eq_lower(k, "x-api-key"@) || eq_lower(
        k,
        "x-hf-token"@,
    )
}

fn eq_lower_exec(a: &Vec<char>, b: &str) -> (r: bool)
    ensures
        r == eq_lower(a@, b@),
{
    let bc = chars_of(b);
    if a.len() != bc.len() {
        return false;
    }
    let mut i: usize = 0;
    while i < a.len()
        invariant
            a@.len() == bc@.len(),
            bc@ == b@,
            i <= a@.len(),
            forall|j: int|
                0 <= j < i ==> (#[trigger] a@[j] == bc@[j] || ('a' <= bc@[j] && bc@[j] <= 'z'
                    && a@[j] as u32 + 32 == bc@[j] as u32)),
        decreases a@.len() - i,
    {
        let x = a[i];
        let y = bc[i];
        if !(x == y || ('a' <= y && y <= 'z' && x as u32 == y as u32 - 32)) {
            return false;
        }
        i = i + 1;
    }
    true
}

/// The value to log for header `key`: `***` for credentials when
/// redacting, else the value itself.
pub fn redact_header(key: &str, val: &str, redact: bool) -> (r: String)
    ensures
        r@ == (if redact && is_secret_header(key@) {
            "***"@
        } else {
            val@
        }),
{
    if !redact {
        return val.to_owned();
    }
    let k = chars_of(key);
    let secret = eq_lower_exec(&k, "authorization") || eq_lower_exec(&k, "cookie")
        || eq_lower_exec(&k, "set-cookie") || eq_lower_exec(&k, "proxy-authorization")
        || eq_lower_exec(&k, "x-api-key") || eq_lower_exec(&k, "x-hf-token");
    if secret {
        String::from_str("***")
    } else {
        val.to_owned()
    }
}

/// The first non-blank comma-separated part of `parts`, trimmed.
pub open spec fn first_nonblank(parts: Seq<Seq<char>>) -> Option<Seq<char>>
    decreases parts.len(),
{
    if parts.len() == 0 {
        None
    } else if trim(parts[0]).len() > 0 {
        Some(trim(parts[0]))
    } else {
        first_nonblank(parts.drop_first())
    }
}

/// The client address of a request: the first non-blank entry of
/// `X-Forwarded-For`, else a non-blank `X-Real-IP`, else the peer address.
pub open spec fn client_ip_spec(
    forwarded: Option<Seq<char>>,
    real_ip: Option<Seq<char>>,
    peer: Option<Seq<char>>,
) -> Option<Seq<char>> {
    let f = match forwarded {
        Some(v) => first_nonblank(split_on(v, ',')),
        None => None,
    };
    if f is Some {
        f
    } else if real_ip is Some && trim(real_ip->0).len() > 0 {
        Some(trim(real_ip->0))
    } else {
        peer
    }
}

pub open spec fn opt_view(o: Option<&str>) -> Option<Seq<char>> {
    match o {
        Some(s) => Some(s@),
        None => None,
    }
}

/// Picks the client address to log a request under, from the
/// `X-Forwarded-For` and `X-Real-IP` header values and the peer address.
pub fn extract_client_ip(forwarded: Option<&str>, real_ip: Option<&str>, peer: Option<String>) -> (r: Option<String>)
    ensures
        match r {
            Some(x) => client_ip_spec(opt_view(forwarded), opt_view(real_ip), match peer {
                Some(p) => Some(p@),
                None => None,
            }) == Some(x@),
            None => client_ip_spec(opt_view(forwarded), opt_view(real_ip), match peer {
                Some(p) => Some(p@),
                None => None,
            }) is None,
        },
{
    if let Some(v) = forwarded {
        let cs = chars_of(v);
        let parts = split_chars(&cs, ',');
        let ghost ps = crate::text::seqs_view(parts@);
        let mut i: usize = 0;
        assert(ps.skip(0) =~= ps);
        while i < parts.len()
            invariant
                i <= parts@.len(),
                ps == crate::text::seqs_view(parts@),
                ps == split_on(v@, ','),
                opt_view(forwarded) == Some(v@),
                first_nonblank(ps) == first_nonblank(ps.skip(i as int)),
            decreases parts@.len() - i,
        {
            let t = trim_chars(&parts[i]);
            assert(ps.skip(i as int)[0] == parts@[i as int]@);
            if t.len() > 0 {
                assert(ps.skip(i as int).len() > 0);
                assert(first_nonblank(ps.skip(i as int)) == Some(t@));
                return Some(string_of(&t));
            }
            assert(ps.skip(i as int).drop_first() =~= ps.skip(i + 1));
            i = i + 1;
        }
    }
    if let Some(v) = real_ip {
        let cs = chars_of(v);
        let t = trim_chars(&cs);
        if t.len() > 0 {
            return Some(string_of(&t));
        }
    }
    peer
}

} // verus!
