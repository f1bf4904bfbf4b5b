use share_clip::clipboard_formats::{
    extension_for_format, inline_limit_for, legacy_format_name, payload_file_name, payload_ref_bytes,
    payload_ref_data, stores_inline, ClipboardFormats, FORMAT_HTML, FORMAT_RTF, FORMAT_TEXT,
    PAYLOAD_REF_PREFIX,
};
use share_clip::hashing::hash_bytes;
use share_clip::inject::{
    file_uri_list,
    format_content, inject_content_from_remote_payload, record_content, InjectContent,
    RecordContent, RemoteClipboardContentPayload,
};
use share_clip::layout::{compute_best_window_position, is_valid_rect};
use share_clip::models::{
    ApiError, AppError, ClipboardRecord, ClipboardType, RecordSummary, WindowLabel,
};
use share_clip::record_files::{
    clipboard_file_item, clipboard_response_from_model, extract_paths_from_clipboard_record,
    path_affected_by_change, record_file_paths,
};

fn formats(text: Option<&str>, html: Option<&str>, rtf: Option<&str>) -> ClipboardFormats {
    ClipboardFormats {
        text: text.map(|s| s.to_string()),
        html: html.map(|s| s.to_string()),
        rtf: rtf.map(|s| s.to_string()),
    }
}

fn record(kind: i32, data: Option<&[u8]>) -> ClipboardRecord {
    ClipboardRecord {
        id: 1,
        kind,
        data: data.map(|d| d.to_vec()),
        preview: None,
        hash: None,
        size: None,
        source_app: None,
        created_at: 0,
        last_accessed_at: 0,
        access_count: 0,
        is_favorite: 0,
        is_shared: 0,
        is_valid: 1,
    }
}

#[test]
fn clipboard_type_codes_round_trip() {
    for t in [
        ClipboardType::Text,
        ClipboardType::Html,
        ClipboardType::Rtf,
        ClipboardType::Image,
        ClipboardType::File,
        ClipboardType::Folder,
    ] {
        assert_eq!(ClipboardType::from_code(t.code()), Ok(t));
        assert_eq!(i32::from(t), t.code());
    }
    assert_eq!(ClipboardType::Folder.code(), 5);
    assert_eq!(ClipboardType::from_code(9), Err("invalid clipboard type: 9".to_string()));
    assert_eq!(ClipboardType::from_code(-3), Err("invalid clipboard type: -3".to_string()));
}

#[test]
fn api_errors_carry_codes() {
    let e = ApiError::from_app_error(AppError::InvalidInput("bad".to_string()));
    assert_eq!(e.code, "INVALID_INPUT");
    assert_eq!(e.message, "bad");
    let e = ApiError::from_app_error(AppError::NotFound);
    assert_eq!(e.code, "NOT_FOUND");
    assert_eq!(e.message, "Resource not found");
    assert_eq!(ApiError::from_app_error(AppError::Json("j".to_string())).code, "SERIALIZATION_ERROR");
}

#[test]
fn window_labels() {
    assert_eq!(WindowLabel::Clipboard.label(), "index");
    assert_eq!(WindowLabel::Config.title(), "设置");
    assert_eq!(WindowLabel::ShareFile.url_params(), "shared-files");
    assert_eq!(WindowLabel::Clipboard.url_params(), "");
}

#[test]
fn summaries_become_records_without_data() {
    let s = RecordSummary {
        id: 4,
        kind: 0,
        preview: Some("p".to_string()),
        hash: None,
        size: Some(3),
        source_app: None,
        created_at: 1,
        last_accessed_at: 2,
        access_count: 5,
        is_favorite: 1,
        is_shared: 0,
        is_valid: 1,
    };
    let m = s.into_model();
    assert_eq!(m.id, 4);
    assert!(m.data.is_none());
    assert_eq!(m.access_count, 5);
}

#[test]
fn primary_format_prefers_html_then_rtf() {
    let f = formats(Some("t"), Some("<b>h</b>"), Some("r"));
    assert_eq!(f.primary_type(), ClipboardType::Html);
    assert_eq!(f.primary_data(), b"<b>h</b>".to_vec());
    assert_eq!(f.primary_text(), "t");
    let f = formats(Some("t"), None, Some("r"));
    assert_eq!(f.primary_type(), ClipboardType::Rtf);
    assert_eq!(f.primary_data(), b"r".to_vec());
    let f = formats(None, None, Some(r"{\rtf1 hello}"));
    assert_eq!(f.primary_text(), "hello");
    let f = formats(None, None, None);
    assert!(f.is_empty());
    assert_eq!(f.primary_type(), ClipboardType::Text);
    assert_eq!(f.primary_text(), "");
    assert!(f.primary_data().is_empty());
}

#[test]
fn sizes_count_utf8_bytes() {
    assert_eq!(formats(Some("é"), Some("ab"), None).total_size(), 4);
    assert_eq!(formats(None, None, None).total_size(), 0);
}

#[test]
fn combined_hash_frames_each_format() {
    let f = formats(Some("hi"), None, Some("r"));
    let mut bytes = Vec::new();
    bytes.extend_from_slice(b"text/plain\0hi\0");
    bytes.extend_from_slice(b"text/rtf\0r\0");
    assert_eq!(f.combined_hash(), hash_bytes(&bytes));
    assert_ne!(f.combined_hash(), formats(Some("hi"), None, None).combined_hash());
}

#[test]
fn legacy_records_hold_one_format() {
    let f = ClipboardFormats::from_legacy_record(&record(1, Some(b"<p>x</p>"))).unwrap();
    assert_eq!(f.html, Some("<p>x</p>".to_string()));
    assert!(f.text.is_none());
    assert!(ClipboardFormats::from_legacy_record(&record(0, None)).is_none());
    assert!(ClipboardFormats::from_legacy_record(&record(3, Some(b"x"))).is_none());
    assert!(ClipboardFormats::from_legacy_record(&record(0, Some(&[0xff, 0xfe]))).is_none());
    assert_eq!(legacy_format_name(0), Some(FORMAT_TEXT.to_string()));
    assert_eq!(legacy_format_name(2), Some("text/rtf".to_string()));
    assert_eq!(legacy_format_name(4), None);
}

#[test]
fn entries_in_storage_order() {
    let f = formats(Some("t"), Some("h"), Some("r"));
    let e = f.ordered_entries();
    assert_eq!(e, vec![(FORMAT_TEXT, "t", 10), (FORMAT_RTF, "r", 20), (FORMAT_HTML, "h", 30)]);
}

#[test]
fn payload_files() {
    assert_eq!(extension_for_format("text/html"), "html");
    assert_eq!(extension_for_format("text/rtf"), "rtf");
    assert_eq!(extension_for_format("text/plain"), "txt");
    assert_eq!(inline_limit_for("text/plain", 1, 2), 1);
    assert_eq!(inline_limit_for("text/html", 1, 2), 2);
    assert!(stores_inline("abc", 3));
    assert!(!stores_inline("abcd", 3));
    assert!(!stores_inline("é", 1));
    let hash = hash_bytes(b"x");
    assert_eq!(payload_file_name(12, &hash, "text/html"), format!("12-{}.html", &hash[..16]));
    let data = payload_ref_data(b"{\"a\":1}");
    assert!(data.starts_with(PAYLOAD_REF_PREFIX.as_bytes()));
    assert_eq!(payload_ref_bytes(&data), Some(b"{\"a\":1}".to_vec()));
    assert_eq!(payload_ref_bytes(b"plain"), None);
}

#[test]
fn record_paths() {
    let files = record(4, Some(b"[\"file:///a/b\", \"/c\"]"));
    assert_eq!(extract_paths_from_clipboard_record(&files).unwrap(), vec!["a/b", "/c"]);
    assert_eq!(record_file_paths(&files), Some(vec!["a/b".to_string(), "/c".to_string()]));
    let image = record(3, Some(b"file:///img.png"));
    assert_eq!(extract_paths_from_clipboard_record(&image).unwrap(), vec!["img.png"]);
    assert_eq!(record_file_paths(&image), None);
    assert_eq!(extract_paths_from_clipboard_record(&record(0, Some(b"x"))).unwrap(), Vec::<String>::new());
    match extract_paths_from_clipboard_record(&record(4, None)) {
        Err(AppError::InvalidInput(m)) => assert_eq!(m, "clipboard file data is empty"),
        _ => panic!("expected an invalid input error"),
    }
    match extract_paths_from_clipboard_record(&record(4, Some(b"nope"))) {
        Err(AppError::Json(_)) => {}
        _ => panic!("expected a JSON error"),
    }
    match extract_paths_from_clipboard_record(&record(3, Some(&[0xff]))) {
        Err(AppError::InvalidInput(m)) => assert!(m.starts_with("无效的 UTF-8 数据: ")),
        _ => panic!("expected an invalid input error"),
    }
}

#[test]
fn responses_and_file_items() {
    let item = clipboard_file_item("/a/pic.png", "/real/pic.png", true, false, Some(3));
    assert_eq!(item.name, "pic.png");
    assert_eq!(item.kind, 2);
    let dir = clipboard_file_item("/a/d", "/", true, true, None);
    assert_eq!(dir.name, "/a/d");
    assert_eq!(dir.kind, 1);
    let r = clipboard_response_from_model(record(1, None), None);
    assert_eq!(r.available_formats, vec!["text/html".to_string()]);
    assert!(clipboard_response_from_model(record(3, None), None).available_formats.is_empty());
}

#[test]
fn remote_content() {
    let payload = |kind: i32| RemoteClipboardContentPayload {
        kind,
        text: Some("t".to_string()),
        html: None,
        rtf: None,
        image_base64: Some("aGk=".to_string()),
        files: None,
    };
    match inject_content_from_remote_payload(payload(0)).unwrap() {
        InjectContent::Text(t) => assert_eq!(t, "t"),
        _ => panic!("expected text"),
    }
    match inject_content_from_remote_payload(payload(3)).unwrap() {
        InjectContent::Image(b) => assert_eq!(b, b"hi".to_vec()),
        _ => panic!("expected an image"),
    }
    match inject_content_from_remote_payload(payload(5)).unwrap() {
        InjectContent::Files(f) => assert!(f.is_empty()),
        _ => panic!("expected files"),
    }
    match inject_content_from_remote_payload(payload(9)) {
        Err(AppError::InvalidInput(m)) => assert_eq!(m, "不支持的远程剪贴板类型"),
        _ => panic!("expected a refusal"),
    }
    let mut bad = payload(3);
    bad.image_base64 = Some("@@".to_string());
    match inject_content_from_remote_payload(bad) {
        Err(AppError::InvalidInput(m)) => assert!(m.starts_with("无效图片数据: ")),
        _ => panic!("expected a refusal"),
    }
    let mut rich = payload(0);
    rich.html = Some("<b>x</b>".to_string());
    match inject_content_from_remote_payload(rich).unwrap() {
        InjectContent::RichText(f) => assert_eq!(f.html, Some("<b>x</b>".to_string())),
        _ => panic!("expected rich text"),
    }
}

#[test]
fn format_choices() {
    match format_content(formats(None, Some("<i>a</i>"), None), "text/html", true).unwrap() {
        InjectContent::Text(t) => assert_eq!(t, "<i>a</i>"),
        _ => panic!("expected text"),
    }
    match format_content(formats(None, Some("<i>a</i>"), None), "text/html", false).unwrap() {
        InjectContent::Html(t) => assert_eq!(t, "<i>a</i>"),
        _ => panic!("expected html"),
    }
    match format_content(formats(None, None, None), "text/rtf", false) {
        Err(AppError::InvalidInput(m)) => assert_eq!(m, "该条目没有 RTF 格式"),
        _ => panic!("expected a refusal"),
    }
    match format_content(formats(None, None, None), "image/png", false) {
        Err(AppError::InvalidInput(m)) => assert_eq!(m, "不支持的剪贴板格式: image/png"),
        _ => panic!("expected a refusal"),
    }
}

#[test]
fn record_contents() {
    match record_content(record(0, Some(b"hello")), formats(None, None, None)).unwrap() {
        Some(RecordContent::Inject(InjectContent::Text(t))) => assert_eq!(t, "hello"),
        _ => panic!("expected text"),
    }
    match record_content(record(1, Some(b"x")), formats(Some("a"), None, None)).unwrap() {
        Some(RecordContent::Inject(InjectContent::RichText(f))) => assert_eq!(f.text, Some("a".to_string())),
        _ => panic!("expected rich text"),
    }
    match record_content(record(3, Some(b"/cache/a.png")), formats(None, None, None)).unwrap() {
        Some(RecordContent::ImageFile(p)) => assert_eq!(p, "/cache/a.png"),
        _ => panic!("expected an image file"),
    }
    match record_content(record(5, Some(b"[\"/d\"]")), formats(None, None, None)).unwrap() {
        Some(RecordContent::Inject(InjectContent::Files(f))) => assert_eq!(f, vec!["/d".to_string()]),
        _ => panic!("expected files"),
    }
    assert!(record_content(record(8, None), formats(None, None, None)).unwrap().is_none());
    assert!(record_content(record(2, Some(&[0xc0])), formats(None, None, None)).is_err());
}

#[test]
fn window_placement_prefers_below_then_above() {
    assert_eq!(compute_best_window_position(100, 100, 102, 120, 300, 400, 8, 0, 0, 1920, 1080), (100, 128));
    assert_eq!(compute_best_window_position(100, 1000, 102, 1020, 300, 400, 8, 0, 0, 1920, 1080), (100, 592));
    assert!(is_valid_rect((0, 0, 10, 10)));
    assert!(!is_valid_rect((0, 0, 0, 10)));
}

#[test]
fn changes_inside_or_around_a_record_file_concern_it() {
    assert!(path_affected_by_change("/home/u/docs", "/home/u/docs/a.txt", "/home/u/docs/a.txt"));
    assert!(path_affected_by_change("/home/u/docs/a.txt", "/home/u/docs", "/home/u/docs"));
    assert!(path_affected_by_change("/home/u/docs/", "/home/u/docs", "/home/u/docs"));
    assert!(path_affected_by_change("/home/u/a.txt", "file:///home/u/a.txt", "/home/u/a.txt"));
    assert!(path_affected_by_change("C:\\Users\\u\\A.txt", "c:/users/u/a.txt", "c:/users/u/a.txt"));
    assert!(!path_affected_by_change("/home/u/docs2", "/home/u/docs", "/home/u/docs"));
    assert!(!path_affected_by_change("/home/u/a.txt", "/home/u/b.txt", "/home/u/b.txt"));
}

#[test]
fn file_lists_become_file_addresses() {
    let files = vec!["/home/u/a.txt".to_string(), "/tmp/b c".to_string()];
    assert_eq!(file_uri_list(&files), "file:///home/u/a.txt\nfile:///tmp/b c\n");
    assert_eq!(file_uri_list(&vec![]), "");
}
