//! Reading the sidecar document. serde_json parses the text; the parsed
//! value is carried in the library's own `Json` type, from which the
//! fields that the index needs are read.
use vstd::prelude::*;
use crate::sidecar::{SidecarEntry, LfsInfo};

verus! {

/// A parsed JSON value. A number carries its value as a `u64` and as an
/// `i64`, each when it is one.
#[derive(Debug)]
pub enum Json {
    Null,
    Bool(bool),
    Num(Option<u64>, Option<i64>),
    Str(String),
    Arr(Vec<Json>),
    Obj(Vec<(String, Json)>),
}

#[verifier::external_type_specification]
#[verifier::external_body]
pub struct ExJsonValue(serde_json::Value);

/// The value that serde_json parses from the text `doc`, or `None` when
/// `doc` is not valid JSON.
pub uninterp spec fn json_of(doc: Seq<char>) -> Option<Json>;

/// Relies on `serde_json::Value`'s variants: turns each into the matching
/// `Json` variant, numbers through `Number::as_u64` and `Number::as_i64`,
/// objects as their (key, value) pairs.
#[verifier::external_body]
fn json_from_value(v: serde_json::Value) -> Json {
    match v {
        serde_json::Value::Null => Json::Null,
        serde_json::Value::Bool(b) => Json::Bool(b),
        serde_json::Value::Number(n) => Json::Num(n.as_u64(), n.as_i64()),
        serde_json::Value::String(s) => Json::Str(s),
        serde_json::Value::Array(a) => Json::Arr(a.into_iter().map(json_from_value).collect()),
        serde_json::Value::Object(m) => Json::Obj(m.into_iter().map(|(k, x)| (k, json_from_value(x))).collect()),
    }
}

/// Relies on `serde_json::from_str`: the text parsed as a JSON value, or
/// `None` when it is not valid JSON; the result depends on the text alone.
#[verifier::external_body]
pub fn parse_json(s: &str) -> (r: Option<Json>)
    ensures
        r == json_of(s@),
{
    serde_json::from_str::<serde_json::Value>(s).ok().map(json_from_value)
}

/// The value of the last member of `fs` named `key`.
pub open spec fn member(fs: Seq<(String, Json)>, key: Seq<char>) -> Option<Json>
    decreases fs.len(),
{
    if fs.len() == 0 {
        None
    } else if fs.last().0@ == key {
        Some(fs.last().1)
    } else {
        member(fs.drop_last(), key)
    }
}

/// Member `key` of `v`, when `v` is an object that has one.
pub open spec fn field_spec(v: Json, key: Seq<char>) -> Option<Json> {
    match v {
        Json::Obj(fs) => member(fs@, key),
        _ => None,
    }
}

/// The string held by `o`, when it holds one.
pub open spec fn str_val(o: Option<Json>) -> Option<String> {
    match o {
        Some(Json::Str(s)) => Some(s),
        _ => None,
    }
}

/// The integer held by `o`: its `u64` value, else its `i64` value.
pub open spec fn int_val(o: Option<Json>) -> Option<i128> {
    match o {
        Some(Json::Num(Some(u), _)) => Some(u as i128),
        Some(Json::Num(None, Some(i))) => Some(i as i128),
        _ => None,
    }
}

/// The record that one element of `entries` gives.
pub open spec fn entry_spec(it: Json) -> SidecarEntry {
    SidecarEntry {
        path: str_val(field_spec(it, "path"@)),
        kind: str_val(field_spec(it, "type"@)),
        size: int_val(field_spec(it, "size"@)),
        oid: str_val(field_spec(it, "oid"@)),
        etag: str_val(field_spec(it, "etag"@)),
        blake3: str_val(field_spec(it, "blake3"@)),
        lfs: match field_spec(it, "lfs"@) {
            Some(l) => match l {
                Json::Obj(_) => Some(
                    LfsInfo { oid: str_val(field_spec(l, "oid"@)), size: int_val(field_spec(l, "size"@)) },
                ),
                _ => None,
            },
            None => None,
        },
    }
}

/// The records of a parsed sidecar document: one per element of its
/// `entries` array, none when there is no document or no such array.
pub open spec fn sidecar_records(doc: Option<Json>) -> Seq<SidecarEntry> {
    match doc {
        Some(d) => match field_spec(d, "entries"@) {
            Some(Json::Arr(a)) => a@.map_values(|x: Json| entry_spec(x)),
            _ => Seq::empty(),
        },
        None => Seq::empty(),
    }
}

/// Member `key` of `v`, when `v` is an object that has one.
pub fn field<'a>(v: &'a Json, key: &str) -> (r: Option<&'a Json>)
    ensures
        match r {
            Some(x) => field_spec(*v, key@) == Some(*x),
            None => field_spec(*v, key@) is None,
        },
{
    match v {
        Json::Obj(fs) => {
            let k = key.to_owned();
            let mut n: usize = fs.len();
            assert(fs@.take(n as int) =~= fs@);
            while n > 0
                invariant
                    n <= fs@.len(),
                    member(fs@, key@) == member(fs@.take(n as int), key@),
                    field_spec(*v, key@) == member(fs@, key@),
                    k@ == key@,
                decreases n,
            {
                assert(fs@.take(n as int).drop_last() =~= fs@.take(n - 1));
                if fs[n - 1].0 == k {
                    assert(fs@.take(n as int).last() == fs@[n - 1]);
                    return Some(&fs[n - 1].1);
                }
                n = n - 1;
            }
            None
        },
        _ => None,
    }
}

fn str_field(v: &Json, key: &str) -> (r: Option<String>)
    ensures
        r == str_val(field_spec(*v, key@)),
{
    match field(v, key) {
        Some(Json::Str(s)) => Some(s.clone()),
        _ => None,
    }
}

fn int_field(v: &Json, key: &str) -> (r: Option<i128>)
    ensures
        r == int_val(field_spec(*v, key@)),
{
    match field(v, key) {
        Some(Json::Num(Some(u), _)) => Some(*u as i128),
        Some(Json::Num(None, Some(i))) => Some(*i as i128),
        _ => None,
    }
}

/// The record that one element of a document's `entries` array gives.
pub fn entry_of(it: &Json) -> (r: SidecarEntry)
    ensures
        r == entry_spec(*it),
{
    let lfs = match field(it, "lfs") {
        Some(l) => match l {
            Json::Obj(_) => Some(LfsInfo { oid: str_field(l, "oid"), size: int_field(l, "size") }),
            _ => None,
        },
        None => None,
    };
    SidecarEntry {
        path: str_field(it, "path"),
        kind: str_field(it, "type"),
        size: int_field(it, "size"),
        oid: str_field(it, "oid"),
        etag: str_field(it, "etag"),
        blake3: str_field(it, "blake3"),
        lfs,
    }
}

/// The records of the sidecar document `doc`, in order: each element of
/// its `entries` array with `path`, `type`, `oid`, `etag` and `blake3`
/// read as strings, `size` as an integer, and `lfs` when it is an object.
/// Text that is not valid JSON, or has no `entries` array, gives none.
pub fn sidecar_entries(doc: &str) -> (r: Vec<SidecarEntry>)
    ensures
        r@ == sidecar_records(json_of(doc@)),
{
    let mut out: Vec<SidecarEntry> = Vec::new();
    let parsed = match parse_json(doc) {
        Some(v) => v,
        None => {
            assert(out@ =~= Seq::<SidecarEntry>::empty());
            return out;
        },
    };
    let arr = match field(&parsed, "entries") {
        Some(Json::Arr(a)) => a,
        _ => {
            assert(out@ =~= Seq::<SidecarEntry>::empty());
            return out;
        },
    };
    let mut i: usize = 0;
    assert(out@ =~= arr@.take(0).map_values(|x: Json| entry_spec(x)));
    while i < arr.len()
        invariant
            i <= arr@.len(),
            out@ == arr@.take(i as int).map_values(|x: Json| entry_spec(x)),
        decreases arr@.len() - i,
    {
        out.push(entry_of(&arr[i]));
        assert(arr@.take(i + 1).map_values(|x: Json| entry_spec(x)) =~= arr@.take(i as int).map_values(
            |x: Json| entry_spec(x),
        ).push(entry_spec(arr@[i as int])));
        i = i + 1;
    }
    assert(arr@.take(arr@.len() as int) =~= arr@);
    out
}

} // verus!
