use share_clip::local_files::{
    clipboard_unshare_row, expired_row_update, missing_row_update, orphaned_row_update,
    clipboard_share_row, has_clipboard_source, has_direct_source, manual_share_row,
    parse_source_clipboard_ids, source_type_after_adding_clipboard, source_type_after_adding_direct,
    source_type_after_removing_clipboard, source_type_after_removing_direct, LocalFileRow,
    SHARE_MODE_MANUAL, SHARE_MODE_TEMP, SOURCE_CLIPBOARD, SOURCE_DIRECT, SOURCE_DIRECT_AND_CLIPBOARD,
};
use share_clip::paths::{
    normalize_file_uri, path_starts_with, relative_path_for, resolve_share_path, validate_relative_path,
};
use share_clip::record_files::{
    file_name, is_image_path, local_file_type_from_clipboard_type, manual_file_type, manual_share_path,
    normalize_for_path_compare, path_text_matches, preview_from_plain_text, sqlite_url,
};
use share_clip::remote_share::{
    append_safe_relative_path, destination_cache_path, encode_uri_component, is_direct_remote_child,
    normalize_remote_relative_path, normalized_remote_base_url, parse_remote_error_detail,
    remote_cache_path, remote_cache_row_in_scope, remote_path_depth, safe_path_segment,
    should_validate_destination_root,
};

#[test]
fn file_uris_become_local_paths() {
    assert_eq!(normalize_file_uri("file:///C:/a.txt"), "C:/a.txt");
    assert_eq!(normalize_file_uri("file://server/share"), "server/share");
    assert_eq!(normalize_file_uri("/home/a"), "/home/a");
    assert_eq!(normalize_file_uri("file:/x"), "file:/x");
}

#[test]
fn relative_paths_must_stay_inside() {
    assert!(validate_relative_path("a/b/c.txt"));
    assert!(validate_relative_path("./a"));
    assert!(!validate_relative_path("../a"));
    assert!(!validate_relative_path("a/../../b"));
    assert!(!validate_relative_path("/etc/passwd"));
    assert!(validate_relative_path("a..b/c"));
}

#[test]
fn share_paths_are_joined_to_the_root() {
    assert_eq!(resolve_share_path("/srv", None), Ok("/srv".to_string()));
    assert_eq!(resolve_share_path("/srv", Some("  ")), Ok("/srv".to_string()));
    assert_eq!(resolve_share_path("/srv", Some("./a//b/")), Ok("/srv/a/b".to_string()));
    assert_eq!(resolve_share_path("/srv/", Some("a")), Ok("/srv/a".to_string()));
    assert_eq!(resolve_share_path("/srv", Some("/etc")), Err("absolute path is not allowed".to_string()));
    assert_eq!(resolve_share_path("/srv", Some("a/../b")), Err("invalid relative path".to_string()));
}

#[test]
fn paths_relative_to_a_root() {
    assert_eq!(relative_path_for("/srv", "/srv/a/b.txt"), "a/b.txt");
    assert_eq!(relative_path_for("/srv", "/srv"), ".");
    assert_eq!(relative_path_for("/srv", "/other/x"), ".");
    assert!(path_starts_with("/srv/a", "/srv"));
    assert!(!path_starts_with("/srvx", "/srv"));
}

#[test]
fn file_names_and_images() {
    assert_eq!(file_name("/a/b.txt"), Some("b.txt".to_string()));
    assert_eq!(file_name("/a/b/"), Some("b".to_string()));
    assert_eq!(file_name("/"), None);
    assert_eq!(file_name("a/.."), None);
    assert!(is_image_path("/x/Photo.JPG"));
    assert!(is_image_path("pic.heic"));
    assert!(!is_image_path("/x/.png"));
    assert!(!is_image_path("/x/notes.txt"));
    assert_eq!(manual_file_type("/x/a.png", false), 2);
    assert_eq!(manual_file_type("/x/a.heic", false), 0);
    assert_eq!(manual_file_type("/x/dir", true), 1);
    assert_eq!(local_file_type_from_clipboard_type(5, false), 1);
    assert_eq!(local_file_type_from_clipboard_type(3, false), 2);
    assert_eq!(local_file_type_from_clipboard_type(4, true), 1);
    assert_eq!(local_file_type_from_clipboard_type(4, false), 0);
}

#[test]
fn manual_paths_lose_quotes_and_scheme() {
    assert_eq!(manual_share_path("  \"file:///home/a b\"  "), "home/a b");
    assert_eq!(manual_share_path("/tmp/x"), "/tmp/x");
}

#[test]
fn windows_paths_compare_as_text() {
    assert_eq!(normalize_for_path_compare("C:/Users/Me/"), "c:\\users\\me");
    assert_eq!(normalize_for_path_compare(r"\\?\C:\Data"), "c:\\data");
    assert_eq!(normalize_for_path_compare(r"\\?\UNC\server\share"), "\\\\server\\share");
    assert!(path_text_matches("C:/Data", r"c:\data\file.txt"));
    assert!(path_text_matches(r"C:\Data\file.txt", "c:/data"));
    assert!(!path_text_matches("C:/Data2", "C:/Data"));
    assert_eq!(sqlite_url(r"C:\db\app.db"), "sqlite://C:/db/app.db?mode=rwc");
}

#[test]
fn previews_take_three_lines() {
    assert_eq!(preview_from_plain_text("a\r\nb\nc\nd"), Some("a\nb\nc".to_string()));
    assert_eq!(preview_from_plain_text("  \n \n"), None);
    let long = "x".repeat(150);
    assert_eq!(preview_from_plain_text(&long).unwrap().chars().count(), 100);
}

#[test]
fn source_types_track_their_sources() {
    assert!(has_direct_source(SOURCE_DIRECT));
    assert!(has_direct_source(SOURCE_DIRECT_AND_CLIPBOARD));
    assert!(!has_direct_source(SOURCE_CLIPBOARD));
    assert!(has_clipboard_source(SOURCE_CLIPBOARD));
    assert_eq!(source_type_after_adding_clipboard(SOURCE_DIRECT), SOURCE_DIRECT_AND_CLIPBOARD);
    assert_eq!(source_type_after_adding_direct(SOURCE_CLIPBOARD), SOURCE_DIRECT_AND_CLIPBOARD);
    assert_eq!(source_type_after_removing_clipboard(SOURCE_DIRECT_AND_CLIPBOARD), Some(SOURCE_DIRECT));
    assert_eq!(source_type_after_removing_clipboard(SOURCE_CLIPBOARD), None);
    assert_eq!(source_type_after_removing_direct(SOURCE_DIRECT_AND_CLIPBOARD), Some(SOURCE_CLIPBOARD));
    assert_eq!(
        source_type_after_removing_clipboard(source_type_after_adding_clipboard(SOURCE_DIRECT)),
        Some(SOURCE_DIRECT)
    );
}

#[test]
fn clipboard_ids_are_read_from_json() {
    assert_eq!(parse_source_clipboard_ids(None), Vec::<i32>::new());
    assert_eq!(parse_source_clipboard_ids(Some("[1, 2,3]")), vec![1, 2, 3]);
    assert_eq!(parse_source_clipboard_ids(Some("not json")), Vec::<i32>::new());
}

fn row(source_type: i32, ids: Option<&str>) -> LocalFileRow {
    LocalFileRow {
        id: "id".to_string(),
        path: "/p".to_string(),
        kind: 0,
        created_at: 1,
        access_count: 3,
        is_valid: 0,
        size: None,
        source_clipboard_id: ids.map(|s| s.to_string()),
        source_type,
        is_favorite: 1,
        share_mode: SHARE_MODE_TEMP,
        expires_at: Some(99),
        updated_at: None,
    }
}

#[test]
fn manual_shares() {
    let new = manual_share_row(None, "/x", 0, Some(5), 10, "new-id");
    assert_eq!(new.id, "new-id");
    assert_eq!(new.source_type, SOURCE_DIRECT);
    assert_eq!(new.share_mode, SHARE_MODE_MANUAL);
    assert_eq!(new.created_at, 10);
    let updated = manual_share_row(Some(row(SOURCE_CLIPBOARD, Some("[4]"))), "/x", 2, None, 11, "n");
    assert_eq!(updated.id, "id");
    assert_eq!(updated.source_type, SOURCE_DIRECT_AND_CLIPBOARD);
    assert_eq!(updated.source_clipboard_id, Some("[4]".to_string()));
    assert_eq!(updated.expires_at, None);
    assert_eq!(updated.is_valid, 1);
    assert_eq!(updated.kind, 2);
    let cleared = manual_share_row(Some(row(SOURCE_CLIPBOARD, Some("[]"))), "/x", 2, None, 11, "n");
    assert_eq!(cleared.source_clipboard_id, None);
}

#[test]
fn clipboard_shares() {
    let new = clipboard_share_row(None, 7, 0, "/x", Some(1), 10, "nid");
    assert_eq!(new.source_type, SOURCE_CLIPBOARD);
    assert_eq!(new.share_mode, SHARE_MODE_TEMP);
    assert_eq!(new.source_clipboard_id, Some("[7]".to_string()));
    let added = clipboard_share_row(Some(row(SOURCE_DIRECT, Some("[1,2]"))), 3, 0, "/x", None, 10, "n");
    assert_eq!(added.source_clipboard_id, Some("[1,2,3]".to_string()));
    assert_eq!(added.source_type, SOURCE_DIRECT_AND_CLIPBOARD);
    assert_eq!(added.share_mode, SHARE_MODE_MANUAL);
    let again = clipboard_share_row(Some(row(SOURCE_CLIPBOARD, Some("[3]"))), 3, 0, "/x", None, 10, "n");
    assert_eq!(again.source_clipboard_id, Some("[3]".to_string()));
    assert_eq!(again.share_mode, SHARE_MODE_TEMP);
    assert_eq!(again.expires_at, Some(99));
}

#[test]
fn remote_paths_are_canonical() {
    assert_eq!(normalize_remote_relative_path("").unwrap(), ".");
    assert_eq!(normalize_remote_relative_path(" . ").unwrap(), ".");
    assert_eq!(normalize_remote_relative_path("//").unwrap(), ".");
    assert_eq!(normalize_remote_relative_path(r" \a\ b /./c/ ").unwrap(), "a/b/c");
    assert!(normalize_remote_relative_path("a/../b").is_err());
    assert_eq!(remote_path_depth("."), 0);
    assert_eq!(remote_path_depth("a/ /b//c"), 3);
}

#[test]
fn remote_children_and_scope() {
    assert!(is_direct_remote_child(".", "a"));
    assert!(!is_direct_remote_child(".", "a/b"));
    assert!(is_direct_remote_child("a", "a/b"));
    assert!(!is_direct_remote_child("a", "a/b/c"));
    assert!(!is_direct_remote_child("a", "ab/c"));
    assert!(remote_cache_row_in_scope(".", "anything"));
    assert!(remote_cache_row_in_scope("a", "a"));
    assert!(remote_cache_row_in_scope("a", "a/b/c"));
    assert!(!remote_cache_row_in_scope("a", "ab"));
    assert_eq!(should_validate_destination_root("a/b", Some("a/b/")).unwrap(), true);
    assert_eq!(should_validate_destination_root("a/b/c", Some("a/b")).unwrap(), false);
    assert!(should_validate_destination_root("a/b", Some("../x")).is_err());
}

#[test]
fn safe_segments() {
    assert_eq!(safe_path_segment("  a<b>:c  ", "x"), "a_b__c");
    assert_eq!(safe_path_segment("name. . ", "x"), "name");
    assert_eq!(safe_path_segment(" ... ", "fallback"), "fallback");
    assert_eq!(safe_path_segment("tab\there", "x"), "tab_here");
    let mut target = "/cache".to_string();
    assert!(append_safe_relative_path(&mut target, "a/ ./b?").is_ok());
    assert_eq!(target, "/cache/a/b_");
    let mut t2 = "/cache".to_string();
    assert!(append_safe_relative_path(&mut t2, "a/../b").is_err());
    assert_eq!(t2, "/cache/a");
}

#[test]
fn cache_and_destination_paths() {
    assert_eq!(
        remote_cache_path("/c", "user", "share", "My Share", ".", "file.txt", false).unwrap(),
        "/c/user/share/file.txt"
    );
    assert_eq!(
        remote_cache_path("/c", "user", "share", "My Share", "d/e", "e", true).unwrap(),
        "/c/user/share/My Share/d/e"
    );
    assert_eq!(
        destination_cache_path("/dest", "a/b", "b.txt", false, Some("a/b")).unwrap(),
        "/dest/b.txt"
    );
    assert_eq!(destination_cache_path("/dest", "a", "a", true, None).unwrap(), "/dest");
    assert_eq!(
        destination_cache_path("/dest", "a/b/c.txt", "c.txt", false, Some("a")).unwrap(),
        "/dest/b/c.txt"
    );
    assert!(destination_cache_path("/dest", "x/c.txt", "c.txt", false, Some("a")).is_err());
}

#[test]
fn remote_addresses_and_errors() {
    assert_eq!(normalized_remote_base_url(" 10.0.0.2:24800/ "), "http://10.0.0.2:24800");
    assert_eq!(normalized_remote_base_url("HTTPS://host/"), "HTTPS://host");
    assert_eq!(encode_uri_component("a b&c"), "a%20b%26c");
    assert_eq!(parse_remote_error_detail(""), "");
    assert_eq!(parse_remote_error_detail("{\"error\":\"boom\"}"), "boom");
    assert_eq!(parse_remote_error_detail("{\"message\":\"hi\"}"), "hi");
    assert_eq!(parse_remote_error_detail("{\"error\":5,\"message\":\"hi\"}"), "{\"error\":5,\"message\":\"hi\"}");
    let long = "z".repeat(200);
    assert_eq!(parse_remote_error_detail(&long), "z".repeat(120));
}

#[test]
fn safe_segments_are_single_plain_components() {
    for raw in ["..", ".", "a/b", "a\\b", "../../etc", " x. ", ""] {
        let s = safe_path_segment(raw, "fallback");
        assert!(!s.is_empty());
        assert!(!s.contains('/') && !s.contains('\\'));
        assert!(!s.ends_with('.') && !s.ends_with(' '));
    }
    assert_eq!(safe_path_segment("../../etc", "f"), ".._.._etc");
}

fn valid_row(source_type: i32, ids: Option<&str>) -> LocalFileRow {
    let mut r = row(source_type, ids);
    r.is_valid = 1;
    r
}

#[test]
fn orphaned_clipboard_shares_are_withdrawn() {
    let only_clip = orphaned_row_update(valid_row(SOURCE_CLIPBOARD, Some("[]")), 50).unwrap_or_else(|| panic!("orphan"));
    assert_eq!((only_clip.is_valid, only_clip.source_clipboard_id.clone(), only_clip.updated_at), (0, None, Some(50)));
    let both = orphaned_row_update(valid_row(SOURCE_DIRECT_AND_CLIPBOARD, None), 51).unwrap_or_else(|| panic!("orphan"));
    assert_eq!((both.is_valid, both.source_type, both.share_mode), (1, SOURCE_DIRECT, SHARE_MODE_MANUAL));
    assert!(orphaned_row_update(valid_row(SOURCE_CLIPBOARD, Some("[7]")), 52).is_none());
    assert!(orphaned_row_update(valid_row(SOURCE_DIRECT, None), 52).is_none());
    assert!(orphaned_row_update(row(SOURCE_CLIPBOARD, None), 52).is_none());
}

#[test]
fn temporary_shares_expire_when_their_time_is_up() {
    let r = expired_row_update(valid_row(SOURCE_CLIPBOARD, Some("[1]")), 99).unwrap_or_else(|| panic!("expired"));
    assert_eq!((r.is_valid, r.expires_at, r.source_clipboard_id.clone()), (0, None, None));
    assert!(expired_row_update(valid_row(SOURCE_CLIPBOARD, Some("[1]")), 98).is_none());
    let both = expired_row_update(valid_row(SOURCE_DIRECT_AND_CLIPBOARD, Some("[1]")), 100).unwrap_or_else(|| panic!("expired"));
    assert_eq!((both.is_valid, both.source_type, both.share_mode, both.expires_at), (1, SOURCE_DIRECT, SHARE_MODE_MANUAL, None));
    let missing = missing_row_update(valid_row(SOURCE_DIRECT, None), 7);
    assert_eq!((missing.is_valid, missing.updated_at), (0, Some(7)));
}

#[test]
fn unsharing_a_record_removes_only_its_id() {
    let r = clipboard_unshare_row(valid_row(SOURCE_CLIPBOARD, Some("[3,5,3]")), 3, 10).unwrap_or_else(|| panic!("unshared"));
    assert_eq!(r.source_clipboard_id, Some("[5]".to_string()));
    assert_eq!(r.is_valid, 1);
    let last = clipboard_unshare_row(valid_row(SOURCE_CLIPBOARD, Some("[5]")), 5, 11).unwrap_or_else(|| panic!("unshared"));
    assert_eq!((last.is_valid, last.source_clipboard_id.clone()), (0, None));
    let kept = clipboard_unshare_row(valid_row(SOURCE_DIRECT_AND_CLIPBOARD, Some("[5]")), 5, 12).unwrap_or_else(|| panic!("unshared"));
    assert_eq!((kept.is_valid, kept.source_type, kept.share_mode), (1, SOURCE_DIRECT, SHARE_MODE_MANUAL));
    assert!(clipboard_unshare_row(valid_row(SOURCE_DIRECT, None), 5, 13).is_none());
}

#[test]
fn resolved_path_reads_back_relative() {
    let p = resolve_share_path("/srv/share", Some(" ./a//b/./c.txt ")).unwrap();
    assert_eq!(relative_path_for("/srv/share", &p), "a/b/c.txt");
    let root = resolve_share_path("/srv/share", Some(".")).unwrap();
    assert_eq!(relative_path_for("/srv/share", &root), ".");
}

#[test]
fn remote_paths_refused_only_for_parent_pieces() {
    assert_eq!(normalize_remote_relative_path(r" \a\ b /./c/ ").unwrap(), "a/b/c");
    assert!(normalize_remote_relative_path("a/ .. /b").is_err());
    assert!(normalize_remote_relative_path(r"a\..").is_err());
    assert_eq!(normalize_remote_relative_path("a/...").unwrap(), "a/...");
    let once = normalize_remote_relative_path("x//y/./").unwrap();
    assert_eq!(normalize_remote_relative_path(&once).unwrap(), once);
}
