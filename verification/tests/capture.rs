use share_clip::thumbnail::generate_image_thumbnail;
use share_clip::capture::checked_capture_step;
use share_clip::capture::{
    capture_step, choose_clipboard_event, files_preview, files_record, formats_to_read, hash_text,
    html_record, path_list_hash, rtf_record, save_action, text_record, CaptureStep, PathKind,
    SaveAction,
};
use share_clip::clipboard_watch::{ClipboardChangeEvent, PasteOutcome, SuppressionState};
use share_clip::models::ClipboardRecord;
use std::hash::{Hash, Hasher};

fn is_hex16(s: &str) -> bool {
    s.len() == 16 && s.chars().all(|c| c.is_ascii_digit() || ('a'..='f').contains(&c))
}

fn expected_default_hash(bytes: &[u8]) -> String {
    let mut hasher = std::collections::hash_map::DefaultHasher::new();
    bytes.hash(&mut hasher);
    format!("{:016x}", hasher.finish())
}

#[test]
fn hash_text_is_sixteen_hex_digits_of_the_default_hasher() {
    let h = hash_text(b"hello");
    assert!(is_hex16(&h));
    assert_eq!(h, expected_default_hash(b"hello"));
    assert_ne!(hash_text(b"hello"), hash_text(b"hellp"));
    assert_eq!(hash_text(b""), expected_default_hash(b""));
}

#[test]
fn path_list_hash_ignores_order() {
    let a = vec!["/b/2.txt".to_string(), "/a/1.txt".to_string(), "/c".to_string()];
    let b = vec!["/c".to_string(), "/b/2.txt".to_string(), "/a/1.txt".to_string()];
    assert_eq!(path_list_hash(&a), path_list_hash(&b));
    assert_eq!(path_list_hash(&a), expected_default_hash("/a/1.txt\0/b/2.txt\0/c".as_bytes()));
    let c = vec!["/a/1.txt".to_string(), "/b/2.txt".to_string()];
    assert_ne!(path_list_hash(&a), path_list_hash(&c));
}

#[test]
fn text_record_fields() {
    let r = text_record("line one\r\nline two\nthree\nfour", 1_700);
    assert_eq!(r.kind, 0);
    assert_eq!(r.data.as_deref(), Some("line one\r\nline two\nthree\nfour".as_bytes()));
    assert_eq!(r.preview.as_deref(), Some("line one\nline two\nthree"));
    assert_eq!(r.hash, expected_default_hash("line one\r\nline two\nthree\nfour".as_bytes()));
    assert_eq!(r.size, 29);
    assert_eq!((r.created_at, r.last_accessed_at), (1_700, 1_700));
    assert_eq!((r.access_count, r.is_favorite, r.is_shared), (0, 0, 0));
    assert!(r.source_app.is_none());
    let blank = text_record("   \n ", 5);
    assert_eq!(blank.preview.as_deref(), Some(""));
}

#[test]
fn html_and_rtf_records() {
    let h = html_record("<p>Hello</p>", 9);
    assert_eq!(h.kind, 1);
    assert_eq!(h.preview.as_deref(), Some("Hello\n"));
    assert_eq!(h.size, 12);
    let r = rtf_record(r"{\rtf1\ansi Hello \b world\b0}", 9);
    assert_eq!(r.kind, 2);
    assert!(r.preview.as_deref().unwrap().contains("Hello"));
}

#[test]
fn files_preview_lists_two_of_many() {
    let files: Vec<String> = vec!["file:///tmp/a.txt", "/tmp/docs", "/tmp/c.png", "/tmp/d"]
        .into_iter()
        .map(String::from)
        .collect();
    let kinds = vec![
        PathKind::File { size_text: Some("1.0 KB".to_string()) },
        PathKind::Folder,
        PathKind::Other,
        PathKind::Other,
    ];
    assert_eq!(files_preview(&files, &kinds), "📄 a.txt (1.0 KB)\n📁 docs\n等 2 个文件");
    let few = vec!["/tmp/docs".to_string(), "/x/y".to_string()];
    let few_kinds = vec![PathKind::Folder, PathKind::File { size_text: None }];
    assert_eq!(files_preview(&few, &few_kinds), "📁 docs\ny");
}

#[test]
fn files_record_kind_and_data() {
    let files = vec!["/tmp/docs".to_string()];
    let kinds = vec![PathKind::Folder];
    let r = files_record(&files, 0, 1, &kinds, 3);
    assert_eq!(r.kind, 5);
    assert_eq!(r.data.as_deref(), Some(br#"["/tmp/docs"]"#.as_slice()));
    assert_eq!(r.size, 13);
    assert_eq!(r.hash, expected_default_hash(b"/tmp/docs"));
    let mixed = files_record(&vec!["/a".to_string(), "/b".to_string()], 1, 1, &vec![PathKind::Other, PathKind::Folder], 3);
    assert_eq!(mixed.kind, 4);
}

#[test]
fn capture_steps_by_event() {
    match capture_step(ClipboardChangeEvent::Text("hi".to_string()), &vec![], 1) {
        CaptureStep::Save(r) => assert_eq!(r.kind, 0),
        _ => panic!("text is saved"),
    }
    let rich = ClipboardChangeEvent::RichText {
        text: Some("t".to_string()),
        html: None,
        rtf: Some(r"{\rtf1 x}".to_string()),
    };
    match capture_step(rich, &vec![], 1) {
        CaptureStep::Save(r) => assert_eq!(r.kind, 2),
        _ => panic!("rich text is saved"),
    }
    let empty = ClipboardChangeEvent::RichText { text: None, html: None, rtf: None };
    assert!(matches!(capture_step(empty, &vec![], 1), CaptureStep::Skip));
    assert!(matches!(capture_step(ClipboardChangeEvent::Image, &vec![], 1), CaptureStep::ReadImage));
    let unknown = ClipboardChangeEvent::Unknown { formats: vec!["x".to_string()] };
    assert!(matches!(capture_step(unknown, &vec![], 1), CaptureStep::Skip));
}

fn stored(id: i32) -> ClipboardRecord {
    ClipboardRecord {
        id,
        kind: 0,
        data: None,
        preview: None,
        hash: Some("h".to_string()),
        size: None,
        source_app: None,
        created_at: 1,
        last_accessed_at: 1,
        access_count: 3,
        is_favorite: 1,
        is_shared: 0,
        is_valid: 1,
    }
}

#[test]
fn known_content_is_only_touched() {
    let existing = stored(42);
    match save_action(Some(&existing), text_record("a", 7), 99) {
        SaveAction::Touch { id, at } => assert_eq!((id, at), (42, 99)),
        _ => panic!("known content is touched"),
    }
    match save_action(None, text_record("a", 7), 99) {
        SaveAction::Insert(r) => assert_eq!(r.created_at, 7),
        _ => panic!("new content is inserted"),
    }
}

#[test]
fn formats_read_within_limits() {
    let all = formats_to_read(true, true, true, Some(10), Some(50), Some(50), 100, 60, 80);
    assert_eq!((all.text, all.html, all.rtf), (true, true, false));
    let unknown_sizes = formats_to_read(true, false, true, None, None, None, 0, 0, 0);
    assert_eq!((unknown_sizes.text, unknown_sizes.html, unknown_sizes.rtf), (true, false, true));
    let over = formats_to_read(true, true, false, Some(200), Some(10), None, 100, 60, 80);
    assert_eq!((over.text, over.html, over.rtf), (false, true, false));
}

#[test]
fn event_priority() {
    let files = ClipboardChangeEvent::Files { files: vec!["/a".to_string()], file_count: 1, folder_count: 0 };
    let r = choose_clipboard_event(Some(files), true, Some("t".to_string()), None, None, None, true, vec![]);
    assert!(matches!(r, Some(ClipboardChangeEvent::Files { .. })));
    let r = choose_clipboard_event(None, true, Some("t".to_string()), Some("<b>t</b>".to_string()), None, None, true, vec![]);
    assert!(matches!(r, Some(ClipboardChangeEvent::RichText { .. })));
    let listed = ClipboardChangeEvent::Files { files: vec!["/b".to_string()], file_count: 1, folder_count: 0 };
    let r = choose_clipboard_event(None, true, Some("/b".to_string()), None, None, Some(listed), false, vec![]);
    assert!(matches!(r, Some(ClipboardChangeEvent::Files { .. })));
    let r = choose_clipboard_event(None, true, Some("t".to_string()), None, None, None, false, vec![]);
    assert!(matches!(r, Some(ClipboardChangeEvent::Text(ref t)) if t == "t"));
    assert!(choose_clipboard_event(None, true, None, None, None, None, true, vec![]).is_none());
    assert!(matches!(choose_clipboard_event(None, false, None, None, None, None, true, vec![]), Some(ClipboardChangeEvent::Image)));
    let r = choose_clipboard_event(None, false, None, None, None, None, false, vec!["odd".to_string()]);
    assert!(matches!(r, Some(ClipboardChangeEvent::Unknown { ref formats }) if formats == &vec!["odd".to_string()]));
}

#[test]
fn paste_skips_its_own_change_and_clears_on_failure() {
    let mut s = SuppressionState::new();
    s.begin_paste_at(1_000);
    assert_eq!((s.count, s.until_ms), (1, 3_000));
    assert_eq!(s.finish_paste(Some(Ok(()))), PasteOutcome::MarkAccessed);
    assert!(s.should_suppress_at(2_500));
    assert!(!s.should_suppress_at(2_600));
    s.begin_paste_at(5_000);
    assert_eq!(s.finish_paste(Some(Err("no clipboard".to_string()))), PasteOutcome::Failed("no clipboard".to_string()));
    assert_eq!((s.count, s.until_ms), (0, 0));
    assert_eq!(s.finish_paste(None), PasteOutcome::MarkAccessed);
}

#[test]
fn checked_capture_step_saves_what_fits() {
    assert!(matches!(checked_capture_step(ClipboardChangeEvent::Text("x".to_string()), &vec![], 1), Some(CaptureStep::Save(_))));
    let files = ClipboardChangeEvent::Files { files: vec!["/a".to_string()], file_count: 1, folder_count: 0 };
    assert!(checked_capture_step(files, &vec![], 1).is_none());
    let files = ClipboardChangeEvent::Files { files: vec!["/a".to_string()], file_count: 1, folder_count: 0 };
    assert!(matches!(checked_capture_step(files, &vec![PathKind::Other], 1), Some(CaptureStep::Save(_))));
}

#[test]
fn file_list_json_escapes_as_serde_json_does() {
    let files = vec!["a\"b\\c\nd\u{1}e".to_string(), "ü".to_string()];
    let r = files_record(&files, 2, 0, &vec![PathKind::Other, PathKind::Other], 1);
    assert_eq!(r.data.as_deref(), Some("[\"a\\\"b\\\\c\\nd\\u0001e\",\"ü\"]".as_bytes()));
    let none = files_record(&vec![], 0, 0, &vec![], 1);
    assert_eq!(none.data.as_deref(), Some(b"[]".as_slice()));
}

#[test]
fn thumbnail_text_is_base64_of_jpeg() {
    let png: [u8; 69] = [0x89, 0x50, 0x4e, 0x47, 0x0d, 0x0a, 0x1a, 0x0a, 0x00, 0x00, 0x00, 0x0d, 0x49, 0x48, 0x44, 0x52, 0x00, 0x00, 0x00, 0x01, 0x00, 0x00, 0x00, 0x01, 0x08, 0x02, 0x00, 0x00, 0x00, 0x90, 0x77, 0x53, 0xde, 0x00, 0x00, 0x00, 0x0c, 0x49, 0x44, 0x41, 0x54, 0x78, 0x9c, 0x63, 0xf8, 0xff, 0xff, 0x3f, 0x00, 0x05, 0xfe, 0x02, 0xfe, 0x0d, 0xef, 0x46, 0xb8, 0x00, 0x00, 0x00, 0x00, 0x49, 0x45, 0x4e, 0x44, 0xae, 0x42, 0x60, 0x82];
    let thumb = generate_image_thumbnail(&png, 10).unwrap();
    assert_eq!(thumb.len() % 4, 0);
    assert!(thumb.chars().all(|c| c.is_ascii_alphanumeric() || c == '+' || c == '/' || c == '='));
}
