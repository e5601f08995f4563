//! Content digests: their hex form, and which files of a repository still
//! need a digest computed.
use vstd::prelude::*;
use crate::sidecar::{SidecarMap, SidecarEntry};
use crate::listing::name_of;
use crate::headers::pairs_view;

verus! {

pub open spec fn hex_digit(n: nat) -> char {
    if n < 10 {
        if n == 0 { '0' } else if n == 1 { '1' } else if n == 2 { '2' } else if n == 3 { '3' }
        else if n == 4 { '4' } else if n == 5 { '5' } else if n == 6 { '6' } else if n == 7 { '7' }
        else if n == 8 { '8' } else { '9' }
    } else if n == 10 { 'a' } else if n == 11 { 'b' } else if n == 12 { 'c' } else if n == 13 { 'd' }
    else if n == 14 { 'e' } else { 'f' }
}

/// Two lower-case hex digits per byte, high nibble first.
pub open spec fn hex_spec(b: Seq<u8>) -> Seq<char>
    decreases b.len(),
{
    if b.len() == 0 {
        Seq::empty()
    } else {
        hex_spec(b.drop_last()) + seq![hex_digit((b.last() / 16) as nat), hex_digit((b.last() % 16) as nat)]
    }
}

/// Relies on `hex::encode`: each byte becomes two lower-case hex digits,
/// high nibble first, in order.
#[verifier::external_body]
fn hex_encode(b: &[u8]) -> (r: String)
    ensures
        r@ == hex_spec(b@),
{
    hex::encode(b)
}

/// The hex form of a finished digest.
pub fn digest_hex(digest: &[u8]) -> (r: String)
    ensures
        r@ == hex_spec(digest@),
{
    hex_encode(digest)
}

/// The entries of `s` with a recorded BLAKE3 digest, as (name, digest).
pub open spec fn recorded(s: Seq<SidecarEntry>) -> Seq<(Seq<char>, Seq<char>)>
    decreases s.len(),
{
    if s.len() == 0 {
        Seq::empty()
    } else {
        match s.last().blake3 {
            Some(d) => recorded(s.drop_last()).push((name_of(s.last()), d@)),
            None => recorded(s.drop_last()),
        }
    }
}

/// The names of the entries of `s` without a recorded BLAKE3 digest.
pub open spec fn unrecorded(s: Seq<SidecarEntry>) -> Seq<Seq<char>>
    decreases s.len(),
{
    if s.len() == 0 {
        Seq::empty()
    } else {
        match s.last().blake3 {
            Some(_) => unrecorded(s.drop_last()),
            None => unrecorded(s.drop_last()).push(name_of(s.last())),
        }
    }
}

/// Splits a repository's files for a BLAKE3 listing: those whose digest
/// the index records (with it), and those whose digest must be computed.
pub fn blake3_plan(sc_map: &SidecarMap) -> (r: (Vec<(String, String)>, Vec<String>))
    ensures
        pairs_view(r.0@) == recorded(sc_map.entries()),
        r.1@.map_values(|x: String| x@) == unrecorded(sc_map.entries()),
{
    let ghost es = sc_map.entries();
    let mut known: Vec<(String, String)> = Vec::new();
    let mut missing: Vec<String> = Vec::new();
    let mut i: usize = 0;
    assert(es.take(0) =~= Seq::<SidecarEntry>::empty());
    assert(pairs_view(known@) =~= Seq::<(Seq<char>, Seq<char>)>::empty());
    assert(missing@.map_values(|x: String| x@) =~= Seq::<Seq<char>>::empty());
    while i < sc_map.len()
        invariant
            es == sc_map.entries(),
            i <= es.len(),
            pairs_view(known@) == recorded(es.take(i as int)),
            missing@.map_values(|x: String| x@) == unrecorded(es.take(i as int)),
        decreases es.len() - i,
    {
        let e = sc_map.entry(i);
        assert(es.take(i + 1).drop_last() =~= es.take(i as int));
        let name = match &e.path {
            Some(p) => p.clone(),
            None => String::new(),
        };
        assert(name@ == name_of(es[i as int]));
        let ghost kb = pairs_view(known@);
        let ghost mb = missing@.map_values(|x: String| x@);
        match &e.blake3 {
            Some(d) => {
                known.push((name, d.clone()));
                assert(pairs_view(known@) =~= kb.push((name_of(es[i as int]), d@)));
                assert(missing@.map_values(|x: String| x@) =~= mb);
            },
            None => {
                missing.push(name);
                assert(missing@.map_values(|x: String| x@) =~= mb.push(name_of(es[i as int])));
                assert(pairs_view(known@) =~= kb);
            },
        }
        i = i + 1;
    }
    assert(es.take(es.len() as int) =~= es);
    (known, missing)
}

} // verus!
