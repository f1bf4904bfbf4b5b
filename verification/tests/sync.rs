use share_clip::clipboard_watch::{
    clipboard_file_paths, file_clipboard_event_from_paths, formats_hint_file_list,
    normalize_text_file_path, should_read_clipboard_format, text_file_list_paths,
    ClipboardChangeEvent, SuppressionState,
};
use share_clip::remote_share::{remote_cache_status, remote_cached_file_item, RemoteCacheStatusPayload, SharedFileIndexRow};
use share_clip::sync_diff::{diff_index_page, index_item, paging, parent_selection, ClientFileMeta, IndexRow, ParentSelection};
use share_clip::share_index::{gone_entry, hashed_entry, index_entry, next_hash_job, PathFacts};
use share_clip::thumbnail::{checked_image_thumbnail, generate_image_thumbnail, thumbnail_dimensions};

fn index_row(path: &str, size: i64, mtime: i64, hash: Option<&str>) -> IndexRow {
    IndexRow {
        local_file_id: "s".to_string(),
        relative_path: path.to_string(),
        absolute_path: format!("/root/{path}"),
        size,
        mtime,
        is_dir: 0,
        hash: hash.map(|h| h.to_string()),
        dirty: 0,
        exists_flag: 1,
        last_seen_at: 0,
        last_hashed_at: None,
    }
}

fn client(path: &str, size: i64, mtime: i64, hash: Option<&str>) -> ClientFileMeta {
    ClientFileMeta { relative_path: path.to_string(), size, mtime, hash: hash.map(|h| h.to_string()) }
}

#[test]
fn diff_sorts_rows_and_client_files() {
    let rows = vec![
        index_row("a.txt", 1, 1, None),
        index_row("b.txt", 2, 2, Some("h")),
        index_row("c.txt", 3, 3, Some("h3")),
        index_row("dir/d.txt", 4, 4, None),
    ];
    let files = vec![
        client("a.txt", 1, 1, None),
        client("b.txt", 9, 9, Some("h")),
        client("c.txt", 9, 9, Some("other")),
        client("z.txt", 5, 5, None),
        client("z.txt", 6, 6, None),
    ];
    let d = diff_index_page(&rows, &files);
    let need: Vec<&str> = d.need_download_to_client.iter().map(|i| i.relative_path.as_str()).collect();
    assert_eq!(need, vec!["dir/d.txt"]);
    let conflicts: Vec<&str> = d.conflict_candidates.iter().map(|i| i.relative_path.as_str()).collect();
    assert_eq!(conflicts, vec!["c.txt"]);
    assert_eq!(d.missing_on_client.len(), 1);
    assert_eq!(d.missing_on_client[0].relative_path, "z.txt");
    assert_eq!(d.missing_on_client[0].size, 6);
    assert_eq!(d.need_download_to_client[0].name, "d.txt");
}

#[test]
fn index_items_and_paging() {
    let item = index_row("x/y.bin", 7, 8, None);
    let i = index_item(&item);
    assert_eq!(i.name, "y.bin");
    assert!(!i.is_dir);
    assert_eq!(paging(None, None), (1, 200, 0));
    assert_eq!(paging(Some(0), Some(0)), (1, 1, 0));
    assert_eq!(paging(Some(3), Some(5000)), (3, 2000, 4000));
    match parent_selection(".") {
        ParentSelection::Root => {}
        _ => panic!("expected the root"),
    }
    match parent_selection("a/b/") {
        ParentSelection::Under(p) => assert_eq!(p, "a/b/%"),
        _ => panic!("expected a pattern"),
    }
}

#[test]
fn suppression_skips_exactly_the_requested_changes() {
    let mut s = SuppressionState::new();
    assert!(!s.should_suppress_at(5));
    s.suppress_at(2, 1000, 100);
    assert_eq!(s.until_ms, 1100);
    assert!(s.should_suppress_at(200));
    assert!(s.should_suppress_at(300));
    assert!(!s.should_suppress_at(400));
    s.suppress_at(3, 10, 100);
    assert!(!s.should_suppress_at(111));
    assert_eq!(s.count, 0);
    s.suppress_at(1, u64::MAX, 5);
    assert_eq!(s.until_ms, u64::MAX);
    s.clear_suppressed_clipboard_changes();
    assert!(!s.should_suppress_at(6));
    s.suppress_next_clipboard_changes(1, 60_000);
    assert!(s.should_suppress_clipboard_change());
    assert!(!s.should_suppress_clipboard_change());
}

#[test]
fn clipboard_file_lists() {
    let files = vec!["file:///a".to_string(), "  ".to_string(), "/b".to_string()];
    let paths = clipboard_file_paths(&files);
    assert_eq!(paths, vec!["a".to_string(), "/b".to_string()]);
    match file_clipboard_event_from_paths(paths, &vec![true, false]) {
        Some(ClipboardChangeEvent::Files { files, file_count, folder_count }) => {
            assert_eq!(files.len(), 2);
            assert_eq!(file_count, 1);
            assert_eq!(folder_count, 1);
        }
        _ => panic!("expected a file list"),
    }
    assert!(file_clipboard_event_from_paths(Vec::new(), &Vec::new()).is_none());
}

#[test]
fn text_file_lists() {
    assert_eq!(normalize_text_file_path("  \u{feff}\"file:///tmp/a b\"  "), "tmp/a b");
    assert_eq!(normalize_text_file_path("'/x'"), "/x");
    assert_eq!(text_file_list_paths("/a\r\n\n '/b' \n", true), Some(vec!["/a".to_string(), "/b".to_string()]));
    assert_eq!(text_file_list_paths("/a", false), None);
    assert_eq!(text_file_list_paths(" \n ", true), None);
    assert!(formats_hint_file_list(&["CF_HDROP".to_string()]));
    assert!(formats_hint_file_list(&["text/uri-list".to_string()]));
    assert!(!formats_hint_file_list(&["text/plain".to_string(), "HTML Format".to_string()]));
}

#[test]
fn format_size_limits() {
    let mut projected = 0u64;
    assert!(should_read_clipboard_format(None, 10, 10, &mut projected));
    assert_eq!(projected, 0);
    assert!(should_read_clipboard_format(Some(6), 10, 10, &mut projected));
    assert_eq!(projected, 6);
    assert!(!should_read_clipboard_format(Some(5), 10, 10, &mut projected));
    assert_eq!(projected, 6);
    assert!(!should_read_clipboard_format(Some(21), 20, 100, &mut projected));
    assert!(should_read_clipboard_format(Some(4), 10, 10, &mut projected));
    assert_eq!(projected, 10);
}

fn shared_row(path: &str, name: &str) -> SharedFileIndexRow {
    SharedFileIndexRow {
        user_id: "u".to_string(),
        shared_file_id: "s1".to_string(),
        relative_path: path.to_string(),
        name: name.to_string(),
        is_dir: 0,
        local_cache_path: Some("/cache/f".to_string()),
        size: Some(10),
        mtime: Some(20),
        hash: Some("abc".to_string()),
        remote_deleted: 0,
        cache_status: 2,
        last_accessed_at: None,
        updated_at: Some(30),
    }
}

#[test]
fn cached_items_and_status() {
    let rows = vec![shared_row("a/b", "b"), shared_row(".", "Share Root")];
    let item = remote_cached_file_item("u", &rows[0], &rows);
    assert_eq!(item.share_name, "Share Root");
    assert_eq!(item.name, "b");
    let alone = vec![shared_row("a/b", "b")];
    assert_eq!(remote_cached_file_item("u", &alone[0], &alone).share_name, "b");

    let payload = |size: Option<i64>, hash: Option<&str>| RemoteCacheStatusPayload {
        remote_user_id: "u".to_string(),
        share_id: "s1".to_string(),
        relative_path: "a/b".to_string(),
        size,
        mtime: None,
        hash: hash.map(|h| h.to_string()),
    };
    assert!(remote_cache_status(&payload(Some(10), None), Some(&rows[0]), true).cached);
    assert!(!remote_cache_status(&payload(Some(11), None), Some(&rows[0]), true).cached);
    assert!(!remote_cache_status(&payload(Some(10), None), Some(&rows[0]), false).cached);
    assert!(remote_cache_status(&payload(Some(11), Some("abc")), Some(&rows[0]), true).cached);
    assert!(!remote_cache_status(&payload(Some(10), Some("xyz")), Some(&rows[0]), true).cached);
    assert!(remote_cache_status(&payload(Some(10), Some("  ")), Some(&rows[0]), true).cached);
    let none = remote_cache_status(&payload(None, None), None, true);
    assert!(!none.cached && none.local_cache_path.is_none());
}

#[test]
fn thumbnails() {
    assert_eq!(thumbnail_dimensions(400, 100), (200, 50));
    assert_eq!(thumbnail_dimensions(100, 400), (50, 200));
    assert_eq!(thumbnail_dimensions(1000, 1), (200, 1));
    assert_eq!(thumbnail_dimensions(300, 300), (200, 200));
    assert!(generate_image_thumbnail(b"not an image", 10).is_err());
    assert!(checked_image_thumbnail(b"not an image", 10).unwrap().is_err());
    // A 1x1 white PNG.
    let png: [u8; 69] = [0x89, 0x50, 0x4e, 0x47, 0x0d, 0x0a, 0x1a, 0x0a, 0x00, 0x00, 0x00, 0x0d, 0x49, 0x48, 0x44, 0x52, 0x00, 0x00, 0x00, 0x01, 0x00, 0x00, 0x00, 0x01, 0x08, 0x02, 0x00, 0x00, 0x00, 0x90, 0x77, 0x53, 0xde, 0x00, 0x00, 0x00, 0x0c, 0x49, 0x44, 0x41, 0x54, 0x78, 0x9c, 0x63, 0xf8, 0xff, 0xff, 0x3f, 0x00, 0x05, 0xfe, 0x02, 0xfe, 0x0d, 0xef, 0x46, 0xb8, 0x00, 0x00, 0x00, 0x00, 0x49, 0x45, 0x4e, 0x44, 0xae, 0x42, 0x60, 0x82];
    let thumb = generate_image_thumbnail(&png, 10).unwrap();
    assert!(thumb.starts_with("/9j/"));
}

fn file_facts(len: u64, mtime: i64) -> PathFacts {
    PathFacts { is_file: true, is_dir: false, len, mtime }
}

#[test]
fn new_file_entry_waits_for_hashing() {
    let r = index_entry(None, "share".to_string(), "a.txt".to_string(), "/s/a.txt".to_string(), &file_facts(12, 500), 900);
    assert_eq!(r.local_file_id, "share");
    assert_eq!(r.relative_path, "a.txt");
    assert_eq!((r.size, r.mtime, r.is_dir, r.dirty, r.exists_flag, r.last_seen_at), (12, 500, 0, 1, 1, 900));
    assert_eq!(r.hash, None);
    let dir = PathFacts { is_file: false, is_dir: true, len: 4096, mtime: 7 };
    let d = index_entry(None, "share".to_string(), "".to_string(), "/s".to_string(), &dir, 901);
    assert_eq!(d.relative_path, ".");
    assert_eq!((d.size, d.is_dir, d.dirty), (0, 1, 0));
}

#[test]
fn unchanged_file_keeps_its_hash_and_stays_clean() {
    let mut old = index_row("a.txt", 12, 500, Some("h1"));
    old.last_hashed_at = Some(600);
    let r = index_entry(Some(old), "other".to_string(), "x".to_string(), "/s2/a.txt".to_string(), &file_facts(12, 500), 900);
    assert_eq!(r.local_file_id, "s");
    assert_eq!(r.relative_path, "a.txt");
    assert_eq!(r.absolute_path, "/s2/a.txt");
    assert_eq!(r.dirty, 0);
    assert_eq!(r.hash, Some("h1".to_string()));
    assert_eq!(r.last_hashed_at, Some(600));
    assert_eq!(r.last_seen_at, 900);
}

#[test]
fn changed_or_returning_file_waits_for_hashing() {
    let old = index_row("a.txt", 12, 500, Some("h1"));
    let grown = index_entry(Some(old), "s".to_string(), "a.txt".to_string(), "/root/a.txt".to_string(), &file_facts(13, 500), 1);
    assert_eq!(grown.dirty, 1);
    assert_eq!(grown.size, 13);
    let mut gone = index_row("a.txt", 12, 500, Some("h1"));
    gone.exists_flag = 0;
    let back = index_entry(Some(gone), "s".to_string(), "a.txt".to_string(), "/root/a.txt".to_string(), &file_facts(12, 500), 2);
    assert_eq!((back.dirty, back.exists_flag), (1, 1));
}

#[test]
fn gone_and_hashed_entries() {
    let mut row = index_row("a.txt", 1, 1, None);
    row.dirty = 1;
    let g = gone_entry(row);
    assert_eq!((g.exists_flag, g.dirty), (0, 0));
    let mut row2 = index_row("b.txt", 1, 1, None);
    row2.dirty = 1;
    let h = hashed_entry(row2, Some("abc".to_string()), 77);
    assert_eq!(h.dirty, 0);
    assert_eq!(h.hash, Some("abc".to_string()));
    assert_eq!(h.last_hashed_at, Some(77));
}

#[test]
fn hashing_takes_the_entry_seen_longest_ago() {
    let mut rows = vec![
        index_row("a", 1, 1, None),
        index_row("b", 1, 1, None),
        index_row("c", 1, 1, None),
        index_row("d", 1, 1, None),
    ];
    rows[0].last_seen_at = 5;
    rows[1].dirty = 1;
    rows[1].last_seen_at = 30;
    rows[2].dirty = 1;
    rows[2].last_seen_at = 20;
    rows[2].is_dir = 1;
    rows[3].dirty = 1;
    rows[3].last_seen_at = 30;
    assert_eq!(next_hash_job(&rows), Some(1));
    rows[3].last_seen_at = 10;
    assert_eq!(next_hash_job(&rows), Some(3));
    rows[1].dirty = 0;
    rows[3].exists_flag = 0;
    assert_eq!(next_hash_job(&rows), None);
}
