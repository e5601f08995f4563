//! What a GET or HEAD of a file answers: status, headers and which bytes
//! of the file make the body.
use vstd::prelude::*;
use crate::headers::{
    Headers, header_insert, common_headers, content_range_value, dec_string, header_safe,
    file_headers_common, set_content_range, decimal, is_header_safe,
};
use crate::range::{RangeParse, range_spec, parse_range};
use crate::sidecar::{SidecarMap, etag_spec, etag_from_sidecar};
use crate::text::{push_char};

verus! {

/// The request method of a file download.
#[derive(Debug, Clone, Copy, PartialEq, Eq, Structural)]
pub enum Method {
    Get,
    Head,
}

/// Which bytes of the file the body carries.
#[derive(Debug, Clone, Copy, PartialEq, Eq, Structural)]
pub enum BodyPlan {
    /// No body.
    Empty,
    /// The whole file.
    Whole,
    /// The inclusive window `(start, end)`.
    Window(u64, u64),
}

/// Why a request for a file fails.
#[derive(Debug, Clone, Copy, PartialEq, Eq, Structural)]
pub enum ServeError {
    /// Bad path, missing file, or the sidecar file itself (404).
    NotFound,
    /// A method that the endpoint does not serve (405).
    MethodNotAllowed,
    /// The sidecar has no usable hash for the file, or records another size (500).
    EtagUnavailable,
    /// The sidecar is missing or lacks a required field, such as a size (500).
    MetadataIncomplete,
}

/// A response to send.
pub struct ResponsePlan {
    pub status: u16,
    pub headers: Headers,
    pub body: BodyPlan,
}

/// The ETag header value: the tag in double quotes, or `"-"` when it
/// cannot stand in a header.
pub open spec fn quoted_etag(t: Seq<char>) -> Seq<char> {
    if header_safe(t) {
        seq!['"'] + t + seq!['"']
    } else {
        "\"-\""@
    }
}

/// `h` with the ETag of `rel` added (and, for a large-file oid, its size),
/// or `None` when the index gives no ETag for a file of `total` bytes.
pub open spec fn with_etag(
    h: Seq<(Seq<char>, Seq<char>)>,
    entries: Seq<crate::sidecar::SidecarEntry>,
    rel: Seq<char>,
    total: u64,
) -> Option<Seq<(Seq<char>, Seq<char>)>> {
    match etag_spec(entries, rel, total) {
        None => None,
        Some((t, lfs)) => {
            let h1 = header_insert(h, "etag"@, quoted_etag(t));
            Some(
                if lfs {
                    header_insert(h1, "x-lfs-size"@, dec_string(total as nat))
                } else {
                    h1
                },
            )
        },
    }
}

/// Headers of a 416 answer.
pub open spec fn unsatisfiable_headers(total: u64) -> Seq<(Seq<char>, Seq<char>)> {
    let h0 = Seq::<(Seq<char>, Seq<char>)>::empty();
    let h1 = header_insert(h0, "content-range"@, "bytes */"@ + dec_string(total as nat));
    let h2 = header_insert(h1, "accept-ranges"@, "bytes"@);
    header_insert(h2, "content-length"@, "0"@)
}

/// The answer to a request for the file `rel` of `total` bytes:
/// (status, headers, body) or the error.
pub open spec fn plan_spec(
    entries: Seq<crate::sidecar::SidecarEntry>,
    rel: Seq<char>,
    method: Method,
    range: Option<Seq<char>>,
    rev: Seq<char>,
    total: u64,
) -> Result<(u16, Seq<(Seq<char>, Seq<char>)>, BodyPlan), ServeError> {
    let full = match with_etag(common_headers(rev, total as nat), entries, rel, total) {
        None => Err(ServeError::EtagUnavailable),
        Some(h) => Ok((200u16, h, BodyPlan::Whole)),
    };
    match method {
        Method::Head => match with_etag(common_headers(rev, total as nat), entries, rel, total) {
            None => Err(ServeError::EtagUnavailable),
            Some(h) => Ok((200u16, h, BodyPlan::Empty)),
        },
        Method::Get => match range {
            None => full,
            Some(r) => match range_spec(r, total) {
                RangeParse::Invalid => full,
                RangeParse::Unsatisfiable => Ok((416u16, unsatisfiable_headers(total), BodyPlan::Empty)),
                RangeParse::Valid(s, e) => match with_etag(
                    common_headers(rev, (e - s + 1) as nat),
                    entries,
                    rel,
                    total,
                ) {
                    None => Err(ServeError::EtagUnavailable),
                    Some(h) => Ok(
                        (
                            206u16,
                            header_insert(
                                h,
                                "content-range"@,
                                content_range_value(s as nat, e as nat, total as nat),
                            ),
                            BodyPlan::Window(s, e),
                        ),
                    ),
                },
            },
        },
    }
}

/// Adds the ETag of `rel_path` to `headers`, strictly from the index; an
/// error when the index has none for a file of `total_size` bytes.
pub fn ensure_and_insert_etag(
    headers: &mut Headers,
    sc_map: &SidecarMap,
    rel_path: &str,
    total_size: u64,
) -> (r: Result<(), ServeError>)
    ensures
        match with_etag(old(headers).items(), sc_map.entries(), rel_path@, total_size) {
            Some(h) => r is Ok && final(headers).items() == h,
            None => r == Err::<(), ServeError>(ServeError::EtagUnavailable) && final(headers).items()
                == old(headers).items(),
        },
{
    match etag_from_sidecar(sc_map, rel_path, total_size) {
        None => Err(ServeError::EtagUnavailable),
        Some((tag, is_lfs)) => {
            let v = if is_header_safe(tag.as_str()) {
                let mut q = String::new();
                push_char(&mut q, '"');
                q.append(tag.as_str());
                push_char(&mut q, '"');
                assert(q@ =~= seq!['"'] + tag@ + seq!['"']);
                q
            } else {
                String::from_str("\"-\"")
            };
            headers.insert("etag", v);
            if is_lfs {
                headers.insert("x-lfs-size", decimal(total_size));
            }
            Ok(())
        },
    }
}

/// Plans the answer to a GET or HEAD of the file `rel_path` (relative to
/// the root of its index), `total` bytes long. HEAD ignores `range`. An
/// invalid range serves the whole file; one outside the file answers 416
/// with `content-range: bytes */<total>`; a valid one answers 206 with the
/// window. Every 200 and 206 carries the ETag from the index.
pub fn plan_file_response(
    sc_map: &SidecarMap,
    rel_path: &str,
    method: Method,
    range: Option<&str>,
    revision: &str,
    total: u64,
) -> (r: Result<ResponsePlan, ServeError>)
    ensures
        match r {
            Ok(p) => plan_spec(
                sc_map.entries(),
                rel_path@,
                method,
                match range { Some(x) => Some(x@), None => None },
                revision@,
                total,
            ) == Ok::<(u16, Seq<(Seq<char>, Seq<char>)>, BodyPlan), ServeError>((p.status, p.headers.items(), p.body)),
            Err(e) => plan_spec(
                sc_map.entries(),
                rel_path@,
                method,
                match range { Some(x) => Some(x@), None => None },
                revision@,
                total,
            ) == Err::<(u16, Seq<(Seq<char>, Seq<char>)>, BodyPlan), ServeError>(e),
        },
{
    let parsed = match method {
        Method::Head => RangeParse::Invalid,
        Method::Get => match range {
            None => RangeParse::Invalid,
            Some(h) => parse_range(h, total),
        },
    };
    match parsed {
        RangeParse::Unsatisfiable => {
            let mut h = Headers::new();
            let mut v = String::from_str("bytes */");
            crate::headers::push_decimal(&mut v, total);
            h.insert("content-range", v);
            h.insert("accept-ranges", String::from_str("bytes"));
            h.insert("content-length", String::from_str("0"));
            Ok(ResponsePlan { status: 416, headers: h, body: BodyPlan::Empty })
        },
        RangeParse::Valid(s, e) => {
            let mut h = file_headers_common(revision, e - s + 1);
            match ensure_and_insert_etag(&mut h, sc_map, rel_path, total) {
                Err(x) => Err(x),
                Ok(()) => {
                    set_content_range(&mut h, s, e, total);
                    Ok(ResponsePlan { status: 206, headers: h, body: BodyPlan::Window(s, e) })
                },
            }
        },
        RangeParse::Invalid => {
            let mut h = file_headers_common(revision, total);
            match ensure_and_insert_etag(&mut h, sc_map, rel_path, total) {
                Err(x) => Err(x),
                Ok(()) => {
                    let body = match method {
                        Method::Head => BodyPlan::Empty,
                        Method::Get => BodyPlan::Whole,
                    };
                    Ok(ResponsePlan { status: 200, headers: h, body })
                },
            }
        },
    }
}

} // verus!
