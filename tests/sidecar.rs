use fakehub::headers::file_headers_common;
use fakehub::serve::{ensure_and_insert_etag, plan_file_response, BodyPlan, Method, ServeError};
use fakehub::sidecar::{etag_from_sidecar, LfsInfo, SidecarEntry, SidecarMap};

fn file(path: &str, size: Option<i128>) -> SidecarEntry {
    SidecarEntry {
        path: Some(path.to_string()),
        kind: Some("file".to_string()),
        size,
        oid: None,
        etag: None,
        blake3: None,
        lfs: None,
    }
}

fn lfs_file(path: &str, size: i128, oid: &str) -> SidecarEntry {
    let mut e = file(path, Some(size));
    e.lfs = Some(LfsInfo { oid: Some(oid.to_string()), size: Some(size) });
    e
}

#[test]
fn etag_prefers_lfs_oid_without_prefix() {
    let map = SidecarMap::from_entries(vec![lfs_file("x.bin", 5, "sha256:1234")]);
    assert_eq!(etag_from_sidecar(&map, "x.bin", 5), Some(("1234".to_string(), true)));
}

#[test]
fn etag_from_primary_oid() {
    let mut e = file("y.txt", Some(3));
    e.oid = Some("abcd".to_string());
    let map = SidecarMap::from_entries(vec![e]);
    assert_eq!(etag_from_sidecar(&map, "y.txt", 3), Some(("abcd".to_string(), false)));
}

#[test]
fn etag_from_etag_field_last() {
    let mut e = file("z", None);
    e.etag = Some("tag".to_string());
    let map = SidecarMap::from_entries(vec![e]);
    assert_eq!(etag_from_sidecar(&map, "z", 99), Some(("tag".to_string(), false)));
}

#[test]
fn etag_absent_on_size_mismatch() {
    let map = SidecarMap::from_entries(vec![lfs_file("x.bin", 5, "sha256:1234")]);
    assert_eq!(etag_from_sidecar(&map, "x.bin", 6), None);
}

#[test]
fn etag_absent_without_fields_or_entry() {
    let map = SidecarMap::from_entries(vec![file("x.bin", Some(5))]);
    assert_eq!(etag_from_sidecar(&map, "x.bin", 5), None);
    assert_eq!(etag_from_sidecar(&map, "other", 5), None);
}

#[test]
fn strict_caller_reports_missing_etag() {
    let map = SidecarMap::from_entries(vec![lfs_file("x.bin", 5, "sha256:1234")]);
    let r = plan_file_response(&map, "x.bin", Method::Head, None, "main", 6);
    assert!(matches!(r, Err(ServeError::EtagUnavailable)));
}

#[test]
fn index_keeps_files_last_write_wins() {
    let mut dir = file("d", Some(0));
    dir.kind = Some("directory".to_string());
    let mut nopath = file("n", Some(1));
    nopath.path = None;
    let map = SidecarMap::from_entries(vec![
        file("a", Some(1)),
        dir,
        nopath,
        file("b", Some(2)),
        file("a", Some(3)),
    ]);
    assert_eq!(map.len(), 2);
    assert_eq!(map.get("a").unwrap().size, Some(3));
    assert_eq!(map.get("b").unwrap().size, Some(2));
    assert!(map.get("d").is_none());
    assert_eq!(map.entry(0).path.as_deref(), Some("a"));
}

#[test]
fn rebuilding_index_gives_equal_mapping() {
    let docs = || vec![file("a", Some(1)), lfs_file("b", 2, "sha256:ff")];
    let m1 = SidecarMap::from_entries(docs());
    let m2 = SidecarMap::from_entries(docs());
    assert_eq!(m1.len(), m2.len());
    for i in 0..m1.len() {
        assert_eq!(m1.entry(i).path, m2.entry(i).path);
        assert_eq!(m1.entry(i).size, m2.entry(i).size);
    }
    assert_eq!(etag_from_sidecar(&m1, "b", 2), etag_from_sidecar(&m2, "b", 2));
}

#[test]
fn router_head_get_with_etag() {
    let map = SidecarMap::from_entries(vec![lfs_file("x.bin", 5, "sha256:1234")]);
    let head = plan_file_response(&map, "x.bin", Method::Head, None, "main", 5).unwrap();
    assert_eq!(head.status, 200);
    assert_eq!(head.headers.get("etag").unwrap(), "\"1234\"");
    assert!(head.headers.get("accept-ranges").is_some());
    assert_eq!(head.headers.get("content-length").unwrap(), "5");
    assert_eq!(head.headers.get("x-lfs-size").unwrap(), "5");
    assert_eq!(head.body, BodyPlan::Empty);

    let get = plan_file_response(&map, "x.bin", Method::Get, Some("bytes=0-1"), "main", 5).unwrap();
    assert_eq!(get.status, 206);
    assert!(get.headers.get("content-range").unwrap().starts_with("bytes 0-1/"));
    assert_eq!(get.headers.get("content-range").unwrap(), "bytes 0-1/5");
    assert!(get.headers.get("accept-ranges").is_some());
    assert_eq!(get.headers.get("content-length").unwrap(), "2");
    assert_eq!(get.body, BodyPlan::Window(0, 1));
}

#[test]
fn get_without_range_serves_whole_file() {
    let map = SidecarMap::from_entries(vec![lfs_file("x.bin", 5, "sha256:1234")]);
    let p = plan_file_response(&map, "x.bin", Method::Get, None, "main", 5).unwrap();
    assert_eq!(p.status, 200);
    assert_eq!(p.body, BodyPlan::Whole);
    assert_eq!(p.headers.get("content-type").unwrap(), "application/octet-stream");
    assert_eq!(p.headers.get("x-revision").unwrap(), "main");
    assert_eq!(p.headers.get("x-repo-commit").unwrap(), "main");
}

#[test]
fn invalid_range_falls_back_to_full_body() {
    let map = SidecarMap::from_entries(vec![lfs_file("x.bin", 5, "sha256:1234")]);
    let p = plan_file_response(&map, "x.bin", Method::Get, Some("bits=0-1"), "main", 5).unwrap();
    assert_eq!(p.status, 200);
    assert_eq!(p.body, BodyPlan::Whole);
}

#[test]
fn unsatisfiable_range_answers_416() {
    let map = SidecarMap::from_entries(vec![lfs_file("x.bin", 5, "sha256:1234")]);
    let p = plan_file_response(&map, "x.bin", Method::Get, Some("bytes=5-"), "main", 5).unwrap();
    assert_eq!(p.status, 416);
    assert_eq!(p.headers.get("content-range").unwrap(), "bytes */5");
    assert_eq!(p.headers.get("content-length").unwrap(), "0");
    assert_eq!(p.body, BodyPlan::Empty);
    assert!(p.headers.get("etag").is_none());
}

#[test]
fn head_ignores_range() {
    let map = SidecarMap::from_entries(vec![lfs_file("x.bin", 5, "sha256:1234")]);
    let p = plan_file_response(&map, "x.bin", Method::Head, Some("bytes=0-1"), "main", 5).unwrap();
    assert_eq!(p.status, 200);
    assert_eq!(p.headers.get("content-length").unwrap(), "5");
}

#[test]
fn unsafe_revision_echoes_dash() {
    let map = SidecarMap::from_entries(vec![lfs_file("x.bin", 5, "sha256:1234")]);
    let p = plan_file_response(&map, "x.bin", Method::Head, None, "ma\nin", 5).unwrap();
    assert_eq!(p.headers.get("x-revision").unwrap(), "-");
}

#[test]
fn sidecar_document_is_read() {
    let doc = r#"{"version": 1, "entries": [
        {"path": "x.bin", "type": "file", "size": 5, "lfs": {"oid": "sha256:1234", "size": 5}},
        {"path": "d", "type": "directory"},
        {"path": "y", "type": "file", "size": -2, "oid": "abcd", "blake3": "b3", "lfs": [1]},
        {"path": "z", "type": "file", "size": 1.5, "etag": "e"}
    ]}"#;
    let entries = fakehub::json::sidecar_entries(doc);
    assert_eq!(entries.len(), 4);
    assert_eq!(entries[0].path.as_deref(), Some("x.bin"));
    assert_eq!(entries[0].size, Some(5));
    assert_eq!(entries[0].lfs.as_ref().unwrap().oid.as_deref(), Some("sha256:1234"));
    assert_eq!(entries[1].kind.as_deref(), Some("directory"));
    assert_eq!(entries[2].size, Some(-2));
    assert_eq!(entries[2].oid.as_deref(), Some("abcd"));
    assert_eq!(entries[2].blake3.as_deref(), Some("b3"));
    assert!(entries[2].lfs.is_none());
    assert_eq!(entries[3].size, None);
    assert_eq!(entries[3].etag.as_deref(), Some("e"));
    let map = SidecarMap::from_entries(entries);
    assert_eq!(map.len(), 3);
    assert_eq!(etag_from_sidecar(&map, "x.bin", 5), Some(("1234".to_string(), true)));
}

#[test]
fn sidecar_document_invalid_has_no_entries() {
    assert!(fakehub::json::sidecar_entries("not json").is_empty());
    assert!(fakehub::json::sidecar_entries("{\"entries\": 3}").is_empty());
    assert!(fakehub::json::sidecar_entries("[]").is_empty());
}

#[test]
fn out_of_range_recorded_size_disagrees() {
    let map = SidecarMap::from_entries(vec![lfs_file("x.bin", -5, "sha256:1234")]);
    assert_eq!(etag_from_sidecar(&map, "x.bin", 5), None);
    let map = SidecarMap::from_entries(vec![lfs_file("x.bin", 1 << 70, "sha256:1234")]);
    assert_eq!(etag_from_sidecar(&map, "x.bin", 5), None);
}

#[test]
fn index_from_document_last_file_entry_wins() {
    let doc = r#"{"entries": [
        {"path": "a", "type": "file", "size": 1, "oid": "first"},
        {"path": "a", "type": "directory", "size": 9},
        {"path": "a", "type": "file", "size": 2, "oid": "second"}
    ]}"#;
    let m1 = SidecarMap::from_document(doc);
    let m2 = SidecarMap::from_document(doc);
    assert_eq!(m1.len(), 1);
    assert_eq!(m1.get("a").unwrap().oid.as_deref(), Some("second"));
    assert_eq!(m1.get("a").unwrap().size, m2.get("a").unwrap().size);
}

#[test]
fn headers_unchanged_without_etag() {
    let map = SidecarMap::from_entries(vec![file("x.bin", Some(5))]);
    let mut h = file_headers_common("main", 5);
    let before = h.len();
    assert!(matches!(ensure_and_insert_etag(&mut h, &map, "x.bin", 5), Err(ServeError::EtagUnavailable)));
    assert_eq!(h.len(), before);
    assert!(h.get("etag").is_none());
}
