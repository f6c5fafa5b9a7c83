use file_index::index::Index;
use file_index::node::{extension, file_type, make_node, stamp};
use file_index::recent::{most_recent, recent_files, sort_newest_first};
use file_index::{EntryMeta, FileNode};

fn file(id: &str, last_modified_secs: u64) -> FileNode {
    let name = id.rsplit('/').next().map(|s| s.to_string());
    let meta = EntryMeta { is_dir: false, size: 1, modified: Some((last_modified_secs, 0)) };
    make_node(id.to_string(), name, &meta, Vec::new())
}

fn ids(nodes: &[FileNode]) -> Vec<String> {
    nodes.iter().map(|n| n.id.clone()).collect()
}

#[test]
fn file_type_of_report_pdf() {
    assert_eq!(file_type(false, &Some("report.PDF".to_string())), "PDF");
    assert_eq!(file_type(false, &Some("report.pdf".to_string())), "PDF");
    assert_eq!(file_type(false, &Some("README".to_string())), "FILE");
    assert_eq!(file_type(false, &None), "FILE");
    assert_eq!(file_type(true, &Some("photos.d".to_string())), "Folder");
    assert_eq!(file_type(true, &None), "Folder");
}

#[test]
fn file_type_edge_names() {
    assert_eq!(file_type(false, &Some(".bashrc".to_string())), "FILE");
    assert_eq!(file_type(false, &Some("archive.tar.gz".to_string())), "GZ");
    assert_eq!(file_type(false, &Some("trailing.".to_string())), "");
    assert_eq!(file_type(false, &Some("straße.txt".to_string())), "TXT");
    assert_eq!(file_type(false, &Some("x.straße".to_string())), "STRASSE");
}

#[test]
fn extension_follows_last_dot() {
    assert_eq!(extension("a.b.c"), Some("c".to_string()));
    assert_eq!(extension("report.PDF"), Some("PDF".to_string()));
    assert_eq!(extension("plain"), None);
    assert_eq!(extension(".hidden"), None);
    assert_eq!(extension(".hidden.toml"), Some("toml".to_string()));
    assert_eq!(extension(""), None);
}

#[test]
fn stamp_is_whole_milliseconds() {
    assert_eq!(stamp(Some((1_700_000_000, 123_456_789))), 1_700_000_000_123);
    assert_eq!(stamp(Some((0, 999_999))), 0);
    assert_eq!(stamp(Some((2, 1_000_000))), 2001);
    assert_eq!(stamp(None), 0);
    let big = ((u64::MAX as u128 * 1000) % (1u128 << 64)) as u64;
    assert_eq!(stamp(Some((u64::MAX, 0))), big);
}

#[test]
fn make_node_fills_every_field() {
    let meta = EntryMeta { is_dir: true, size: 64, modified: Some((3, 500_000_000)) };
    let n = make_node(
        "/a/dir".to_string(),
        Some("dir".to_string()),
        &meta,
        vec!["/a/dir/x".to_string(), "/a/dir/y".to_string()],
    );
    assert_eq!(n.id, "/a/dir");
    assert_eq!(n.name, "dir");
    assert!(n.is_dir);
    assert_eq!(n.size, 64);
    assert_eq!(n.file_type, "Folder");
    assert_eq!(n.last_modified, 3500);
    assert_eq!(n.children, vec!["/a/dir/x", "/a/dir/y"]);
    let unnamed = make_node("/".to_string(), None, &meta, Vec::new());
    assert_eq!(unnamed.name, "/");
}

#[test]
fn recent_top_three_of_five() {
    let nodes = vec![file("/r/t3", 30), file("/r/t1", 10), file("/r/t5", 50), file("/r/t2", 20), file("/r/t4", 40)];
    let r = most_recent(nodes, 3);
    assert_eq!(ids(&r), vec!["/r/t5", "/r/t4", "/r/t3"]);
    assert_eq!(r[0].last_modified, 50_000);
}

#[test]
fn recent_with_zero_limit_is_empty() {
    let nodes = vec![file("/r/a", 1), file("/r/b", 2)];
    assert!(most_recent(nodes, 0).is_empty());
    let mut index = Index::new();
    index.record(file("/r/a", 1));
    assert!(recent_files(index, 0).is_empty());
}

#[test]
fn recent_limit_beyond_count_returns_all() {
    let nodes = vec![file("/r/a", 1), file("/r/b", 2)];
    let r = most_recent(nodes, 10);
    assert_eq!(ids(&r), vec!["/r/b", "/r/a"]);
    assert!(most_recent(Vec::new(), 4).is_empty());
}

#[test]
fn sort_with_equal_timestamps() {
    let nodes = vec![file("/r/a", 5), file("/r/b", 9), file("/r/c", 5), file("/r/d", 7)];
    let r = sort_newest_first(nodes);
    let stamps: Vec<u64> = r.iter().map(|n| n.last_modified).collect();
    assert_eq!(stamps, vec![9000, 7000, 5000, 5000]);
    let mut all = ids(&r);
    all.sort();
    assert_eq!(all, vec!["/r/a", "/r/b", "/r/c", "/r/d"]);
}

#[test]
fn recent_files_of_an_index() {
    let mut index = Index::new();
    for (id, t) in [("/r/t1", 10), ("/r/t2", 20), ("/r/t3", 30), ("/r/t4", 40), ("/r/t5", 50)] {
        index.record(file(id, t));
    }
    let r = recent_files(index, 3);
    assert_eq!(ids(&r), vec!["/r/t5", "/r/t4", "/r/t3"]);
}

#[test]
fn index_records_and_replaces_by_id() {
    let mut index = Index::new();
    assert_eq!(index.len(), 0);
    assert!(index.get("/x").is_none());
    index.record(file("/x", 1));
    index.record(file("/y", 2));
    assert_eq!(index.len(), 2);
    index.record(file("/x", 7));
    assert_eq!(index.len(), 2);
    assert_eq!(index.get("/x").unwrap().last_modified, 7000);
    assert!(index.contains("/y"));
    assert!(!index.contains("/z"));
    let mut all = ids(&index.into_nodes());
    all.sort();
    assert_eq!(all, vec!["/x", "/y"]);
}

#[test]
fn index_into_map_keeps_entries() {
    let mut index = Index::new();
    index.record(file("/x", 1));
    let m = index.into_map();
    assert_eq!(m.len(), 1);
    assert_eq!(m.get("/x").unwrap().name, "x");
}
