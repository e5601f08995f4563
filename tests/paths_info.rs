use fakehub::paths_info::{paths_info_items, PathItem};
use fakehub::routes::split_marked;
use fakehub::serve::ServeError;
use fakehub::sidecar::{LfsInfo, SidecarEntry, SidecarMap};
use fakehub::state::paths_info_key;

fn file(path: &str, size: Option<i128>) -> SidecarEntry {
    SidecarEntry {
        path: Some(path.to_string()),
        kind: Some("file".to_string()),
        size,
        oid: None,
        etag: None,
        blake3: None,
        lfs: None,
    }
}

fn describe(items: &[PathItem]) -> Vec<String> {
    items
        .iter()
        .map(|it| match it {
            PathItem::File(p) => format!("file:{}:{}", p.path, p.size),
            PathItem::Directory(d) => format!("dir:{}", d),
        })
        .collect()
}

fn sample() -> SidecarMap {
    let mut big = file("w/big.bin", Some(10));
    big.lfs = Some(LfsInfo { oid: Some("sha256:ab".to_string()), size: None });
    SidecarMap::from_entries(vec![file("a.txt", Some(1)), big, file("w/c.txt", Some(3)), file("wx", Some(4))])
}

#[test]
fn paths_info_root_expands_everything() {
    let items = paths_info_items(&sample(), &vec![], true).ok().unwrap();
    assert_eq!(describe(&items), vec!["file:a.txt:1", "file:w/big.bin:10", "file:w/c.txt:3", "file:wx:4"]);
    let items = paths_info_items(&sample(), &vec!["/".to_string()], false).ok().unwrap();
    assert_eq!(describe(&items), vec!["dir:"]);
}

#[test]
fn paths_info_exact_file_and_directory() {
    let q = vec!["/a.txt".to_string(), "w".to_string(), "".to_string()];
    let items = paths_info_items(&sample(), &q, true).ok().unwrap();
    assert_eq!(describe(&items), vec!["file:a.txt:1", "dir:w", "file:w/big.bin:10", "file:w/c.txt:3"]);
    match &items[2] {
        PathItem::File(p) => assert_eq!(p.lfs.as_ref().unwrap().size, Some(10)),
        _ => panic!("expected a file"),
    }
}

#[test]
fn paths_info_without_expand_and_repeats() {
    let q = vec!["w".to_string(), "w\\".to_string(), "a.txt".to_string(), "a.txt".to_string()];
    let items = paths_info_items(&sample(), &q, false).ok().unwrap();
    assert_eq!(describe(&items), vec!["dir:w", "dir:w/", "file:a.txt:1"]);
}

#[test]
fn paths_info_missing_size_is_an_error() {
    let map = SidecarMap::from_entries(vec![file("a", None)]);
    assert!(matches!(paths_info_items(&map, &vec![], true), Err(ServeError::MetadataIncomplete)));
    assert!(paths_info_items(&map, &vec![], false).is_ok());
}

#[test]
fn paths_info_key_ignores_order() {
    let a = paths_info_key("/r", 1, 2, &vec!["b".to_string(), "a".to_string()], true);
    let b = paths_info_key("/r", 1, 2, &vec!["a".to_string(), "b".to_string()], true);
    let c = paths_info_key("/r", 1, 2, &vec!["a".to_string(), "b".to_string()], false);
    assert_eq!(a, b);
    assert_ne!(a, c);
    assert_eq!(a, "/r|1|2|1|1:a|1:b");
}

#[test]
fn split_marked_paths() {
    assert_eq!(
        split_marked("org/repo/tree/main", "tree"),
        Some(("org/repo".to_string(), "main".to_string()))
    );
    assert_eq!(split_marked("repo/revision/v1", "revision"), Some(("repo".to_string(), "v1".to_string())));
    assert_eq!(split_marked("tree/main", "tree"), None);
    assert_eq!(split_marked("org/repo", "tree"), None);
}
