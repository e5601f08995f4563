use fakehub::paths::{is_sidecar_path, join_under, normalize_rel, path_within};

#[test]
fn normalize_rel_basic() {
    assert_eq!(normalize_rel("a/b").unwrap(), "a/b");
    assert_eq!(normalize_rel("a/./b").unwrap(), "a/b");
    assert_eq!(normalize_rel("a/../b").unwrap(), "b");
    assert!(normalize_rel("/abs").is_none());
    assert!(normalize_rel("../../etc").is_none());
}

#[test]
fn secure_join_rejects_escape() {
    let base = ".";
    let ok = join_under(base, "src/main.rs");
    assert!(ok.is_some());
    let bad = join_under(base, "../..//etc/passwd");
    assert!(bad.is_none());
}

#[test]
fn detect_sidecar_name() {
    assert!(is_sidecar_path(".paths-info.json"));
    assert!(is_sidecar_path("foo/.paths-info.json"));
    assert!(!is_sidecar_path("paths-info.json"));
}

#[test]
fn normalize_backslashes_and_empty() {
    assert_eq!(normalize_rel("a\\b//c/").unwrap(), "a/b/c");
    assert_eq!(normalize_rel("").unwrap(), "");
    assert_eq!(normalize_rel("a/..").unwrap(), "");
    assert!(normalize_rel("a/../..").is_none());
}

#[test]
fn join_under_places_path_below_root() {
    assert_eq!(join_under("/srv/hub", "repo/x.bin").unwrap(), "/srv/hub/repo/x.bin");
    assert_eq!(join_under("/srv/hub/", "repo").unwrap(), "/srv/hub/repo");
    assert_eq!(join_under("/srv/hub", "a/..").unwrap(), "/srv/hub");
    assert!(join_under("/srv/hub", "/etc/passwd").is_none());
}

#[test]
fn within_compares_whole_segments() {
    assert!(path_within("/srv/hub", "/srv/hub"));
    assert!(path_within("/srv/hub", "/srv/hub/repo/x"));
    assert!(!path_within("/srv/hub", "/srv/hubby"));
    assert!(!path_within("/srv/hub", "/srv"));
    assert!(path_within("/", "/etc"));
}

#[test]
fn sidecar_detected_through_trailing_separators() {
    assert!(is_sidecar_path("repo/.paths-info.json/"));
    assert!(is_sidecar_path("repo/.paths-info.json/."));
    assert!(!is_sidecar_path("repo/.paths-info.json/x"));
}
