use fakehub::access::{prune_ip_bucket, record_ip_access, select_recent, window_ms, IpAccessEntry, IpLogQuery};
use fakehub::hashing::{blake3_plan, digest_hex};
use fakehub::headers::{decimal, file_headers_common, set_content_range};
use fakehub::listing::{collect_paths_info_from_sidecar, siblings_from_sidecar, sort_names};
use fakehub::repo::fake_sha;
use fakehub::request::{extract_client_ip, redact_header};
use fakehub::paths::repo_root_of;
use fakehub::routes::{parse_route, RouteKind};
use fakehub::serve::{Method, ServeError};
use fakehub::sidecar::{LfsInfo, SidecarEntry, SidecarMap};
use fakehub::state::{siblings_key, stat_key};
use fakehub::repo::RepoKind;
use std::collections::VecDeque;

fn entry(at_ms: i64) -> IpAccessEntry {
    IpAccessEntry { at_ms, method: "GET".to_string(), path: format!("/p{at_ms}"), status: 200 }
}

fn file(path: &str, size: Option<i128>) -> SidecarEntry {
    SidecarEntry {
        path: Some(path.to_string()),
        kind: Some("file".to_string()),
        size,
        oid: None,
        etag: None,
        blake3: None,
        lfs: None,
    }
}

#[test]
fn prune_drops_entries_older_than_window() {
    let mut b: VecDeque<IpAccessEntry> = vec![entry(1000), entry(2000), entry(3000)].into();
    prune_ip_bucket(&mut b, 3500, 1000);
    assert_eq!(b.len(), 1);
    assert_eq!(b[0].at_ms, 3000);
}

#[test]
fn prune_with_no_retention_keeps_all() {
    let mut b: VecDeque<IpAccessEntry> = vec![entry(1), entry(2)].into();
    prune_ip_bucket(&mut b, i64::MAX, 0);
    assert_eq!(b.len(), 2);
    prune_ip_bucket(&mut b, i64::MIN, 5);
    assert_eq!(b.len(), 2);
}

#[test]
fn record_respects_per_ip_cap() {
    let mut b: VecDeque<IpAccessEntry> = VecDeque::new();
    for t in 0..5 {
        record_ip_access(&mut b, entry(t), t, 1_000_000, 3);
    }
    assert_eq!(b.len(), 3);
    assert_eq!(b[0].at_ms, 2);
    assert_eq!(b[2].at_ms, 4);
}

#[test]
fn select_recent_filters_and_limits() {
    let b: VecDeque<IpAccessEntry> = vec![entry(1), entry(5), entry(6), entry(7)].into();
    let r = select_recent(&b, 5, 2);
    assert_eq!(r.iter().map(|e| e.at_ms).collect::<Vec<_>>(), vec![6, 7]);
    let all = select_recent(&b, 0, 10);
    assert_eq!(all.len(), 4);
}

#[test]
fn ip_log_query_clamps() {
    let q = IpLogQuery { ip: "1.2.3.4".to_string(), mins: Some(0), limit: Some(0) };
    assert_eq!(q.window_secs(1800), 60);
    assert_eq!(q.effective_limit(200), 1);
    let q = IpLogQuery { ip: "x".to_string(), mins: Some(u64::MAX), limit: None };
    assert_eq!(q.window_secs(1800), 1800);
    assert_eq!(q.effective_limit(200), 200);
    let q = IpLogQuery { ip: "x".to_string(), mins: Some(10), limit: Some(500) };
    assert_eq!(q.window_secs(1800), 600);
    assert_eq!(q.effective_limit(200), 200);
    assert_eq!(window_ms(60), 60_000);
    assert_eq!(window_ms(u64::MAX), i64::MAX);
}

#[test]
fn redaction_of_credentials() {
    assert_eq!(redact_header("Authorization", "Bearer x", true), "***");
    assert_eq!(redact_header("X-HF-Token", "t", true), "***");
    assert_eq!(redact_header("Authorization", "Bearer x", false), "Bearer x");
    assert_eq!(redact_header("accept", "*/*", true), "*/*");
}

#[test]
fn client_ip_choice() {
    assert_eq!(extract_client_ip(Some(" , 1.2.3.4 , 5.6.7.8"), Some("9.9.9.9"), None).unwrap(), "1.2.3.4");
    assert_eq!(extract_client_ip(Some(" , "), Some(" 9.9.9.9 "), None).unwrap(), "9.9.9.9");
    assert_eq!(extract_client_ip(None, Some("  "), Some("10.0.0.1".to_string())).unwrap(), "10.0.0.1");
    assert!(extract_client_ip(None, None, None).is_none());
}

#[test]
fn fake_sha_forms() {
    assert_eq!(fake_sha(Some("main")), "fakesha-main");
    assert_eq!(fake_sha(None), "fakesha1234567890");
}

#[test]
fn hex_of_digest() {
    assert_eq!(digest_hex(&[1, 2, 3, 15, 16]), "0102030f10");
    assert_eq!(digest_hex(&[0xab, 0xff]), "abff");
    assert_eq!(digest_hex(&[]), "");
}

#[test]
fn decimal_and_headers() {
    assert_eq!(decimal(0), "0");
    assert_eq!(decimal(1234567890), "1234567890");
    assert_eq!(decimal(u64::MAX), "18446744073709551615");
    let mut h = file_headers_common("main", 5);
    assert_eq!(h.len(), 5);
    assert_eq!(h.get("content-length").unwrap(), "5");
    set_content_range(&mut h, 0, 1, 5);
    set_content_range(&mut h, 2, 3, 5);
    assert_eq!(h.get("content-range").unwrap(), "bytes 2-3/5");
    assert_eq!(h.len(), 6);
}

#[test]
fn siblings_sorted_with_total() {
    let mut l = file("b/big", None);
    l.lfs = Some(LfsInfo { oid: Some("sha256:aa".to_string()), size: Some(10) });
    let map = SidecarMap::from_entries(vec![file("z", Some(3)), file("a", Some(-4)), l]);
    let (names, total) = siblings_from_sidecar(&map).unwrap();
    assert_eq!(names, vec!["a".to_string(), "b/big".to_string(), "z".to_string()]);
    assert_eq!(total, 13);
}

#[test]
fn siblings_need_sizes() {
    let map = SidecarMap::from_entries(vec![file("a", Some(1)), file("b", None)]);
    assert!(siblings_from_sidecar(&map).is_none());
    assert!(collect_paths_info_from_sidecar(&map).is_none());
}

#[test]
fn paths_info_records() {
    let mut e = file("x.bin", Some(5));
    e.oid = Some("abcd".to_string());
    e.lfs = Some(LfsInfo { oid: Some("sha256:1234".to_string()), size: None });
    let map = SidecarMap::from_entries(vec![e, file("y", Some(1))]);
    let v = collect_paths_info_from_sidecar(&map).unwrap();
    assert_eq!(v.len(), 2);
    assert_eq!(v[0].path, "x.bin");
    assert_eq!(v[0].size, 5);
    assert_eq!(v[0].oid.as_deref(), Some("abcd"));
    assert_eq!(v[0].lfs.as_ref().unwrap().oid.as_deref(), Some("sha256:1234"));
    assert_eq!(v[0].lfs.as_ref().unwrap().size, None);
    assert!(v[1].lfs.is_none());
}

#[test]
fn sort_names_orders_by_code_point() {
    let v = vec!["b".to_string(), "B".to_string(), "a/b".to_string(), "a".to_string()];
    assert_eq!(sort_names(v), vec!["B", "a", "a/b", "b"]);
}

#[test]
fn blake3_plan_splits_recorded() {
    let mut a = file("a", Some(1));
    a.blake3 = Some("h".to_string());
    let map = SidecarMap::from_entries(vec![a, file("b", Some(2))]);
    let (known, missing) = blake3_plan(&map);
    assert_eq!(known, vec![("a".to_string(), "h".to_string())]);
    assert_eq!(missing, vec!["b".to_string()]);
}

#[test]
fn route_parsing() {
    let r = parse_route("org/repo/resolve/main/dir/x.bin", Method::Get).ok().unwrap();
    assert_eq!(r.kind, RouteKind::Resolve);
    assert_eq!(r.repo, "org/repo");
    assert_eq!(r.revision, "main");
    assert_eq!(r.filename, "dir/x.bin");
    assert_eq!(r.rel, "org/repo/dir/x.bin");
    let s = parse_route("/repo/sha256/main/x.bin", Method::Get).ok().unwrap();
    assert_eq!(s.kind, RouteKind::Sha256);
    assert_eq!(s.rel, "repo/x.bin");
    assert!(matches!(parse_route("repo/sha256/main/x.bin", Method::Head), Err(ServeError::MethodNotAllowed)));
    assert!(matches!(parse_route("repo/resolve/main/.paths-info.json", Method::Get), Err(ServeError::NotFound)));
    assert!(matches!(parse_route("repo/resolve/main", Method::Get), Err(ServeError::NotFound)));
    assert!(matches!(parse_route("repo/tree/main/x", Method::Get), Err(ServeError::NotFound)));
    assert!(matches!(parse_route("sha256/main/x", Method::Get), Err(ServeError::NotFound)));
}

#[test]
fn cache_keys() {
    assert_eq!(stat_key("/r/x.bin", 12, 5), "/r/x.bin|12|5");
    assert_eq!(siblings_key(RepoKind::Model, "/r"), "model:/r");
    assert_eq!(siblings_key(RepoKind::Dataset, "/r"), "dataset:/r");
}

#[test]
fn route_refuses_paths_that_resolve_to_sidecar() {
    for name in [
        "repo/sha256/main/.paths-info.json/x/..",
        "repo/resolve/main/.paths-info.json/x/..",
        "repo/resolve/main/x\\..\\.paths-info.json",
        "repo/resolve/main/a/../.paths-info.json",
        "repo/resolve/main/../../etc/passwd",
    ] {
        assert!(matches!(parse_route(name, Method::Get), Err(ServeError::NotFound)), "{name}");
    }
    assert!(parse_route("repo/resolve/main/a/../b.bin", Method::Get).is_ok());
}

#[test]
fn repo_root_strips_file_components() {
    assert_eq!(repo_root_of("/hub/org/repo/dir/x.bin", "dir/x.bin"), "/hub/org/repo");
    assert_eq!(repo_root_of("/hub/repo/x.bin", "x.bin"), "/hub/repo");
    assert_eq!(repo_root_of("/x.bin", "a/b/x.bin"), "/");
}
