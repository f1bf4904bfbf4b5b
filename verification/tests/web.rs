use share_clip::paths::resolve_share_path;
use share_clip::web::{share_file_target, ShareFileRefusal};
use share_clip::access::{
    authorize_browser_request, client_credentials, client_row_decision, connection_request_decision,
    BrowserRefusal, ClientRefusal, ConnectionRefusal, InboundConnectionRow,
};
use share_clip::config::AppConfig;
use share_clip::web::{
    auth_scope_options, connection_status_body, cookie_value, download_href, escape_html,
    file_response, FileResponse,
    is_path_allowed, name_from_relative_path, normalize_parent_filter, parent_path, parse_range,
    path_query, share_icon, share_kind_label, url_encode, web_session_cookie, ServedRoot,
};
use share_clip::web_auth::{
    enabled_scopes, scope_names, scopes_from_optional_names, WebAccessScope, WebAuthState,
    COOKIE_NAME,
};

fn config() -> AppConfig {
    AppConfig::default_for("d".to_string(), "n".to_string(), "c".to_string())
}

#[test]
fn escape_html_replaces_markup_characters() {
    assert_eq!(escape_html("<a href=\"x\">'&'</a>"), "&lt;a href=&quot;x&quot;&gt;&#39;&amp;&#39;&lt;/a&gt;");
    assert_eq!(escape_html("plain"), "plain");
}

#[test]
fn url_encode_keeps_unreserved_bytes() {
    assert_eq!(url_encode("a-b_c.d~e"), "a-b_c.d~e");
    assert_eq!(url_encode("a b/c"), "a%20b%2Fc");
    assert_eq!(url_encode("é"), "%C3%A9");
}

#[test]
fn path_query_and_download_href() {
    assert_eq!(path_query("."), "");
    assert_eq!(path_query("   "), "");
    assert_eq!(path_query("a b"), "?path=a%20b");
    assert_eq!(download_href("id 1", "."), "/api/files/id%201/download");
    assert_eq!(download_href("x", "dir/f.txt"), "/api/files/x/download?path=dir%2Ff.txt");
}

#[test]
fn parent_path_walks_up() {
    assert_eq!(parent_path("."), None);
    assert_eq!(parent_path("/"), None);
    assert_eq!(parent_path("a"), Some(".".to_string()));
    assert_eq!(parent_path("/a/b/c/"), Some("a/b".to_string()));
}

#[test]
fn share_icons_and_labels() {
    assert_eq!(share_icon(1), "📁");
    assert_eq!(share_icon(0), "📄");
    assert_eq!(share_kind_label(1), "目录");
    assert_eq!(share_kind_label(2), "图片");
    assert_eq!(share_kind_label(7), "文件");
}

#[test]
fn names_of_relative_paths() {
    assert_eq!(name_from_relative_path("."), ".");
    assert_eq!(name_from_relative_path("a/b.txt"), "b.txt");
    assert_eq!(name_from_relative_path("a/"), "a/");
    assert_eq!(name_from_relative_path("file"), "file");
}

#[test]
fn parent_filter_is_trimmed_with_forward_slashes() {
    assert_eq!(normalize_parent_filter(None), None);
    assert_eq!(normalize_parent_filter(Some("  ")), None);
    assert_eq!(normalize_parent_filter(Some(" a\\b ")), Some("a/b".to_string()));
}

#[test]
fn session_cookie_keeps_at_least_a_minute() {
    assert_eq!(
        web_session_cookie("tok", 10),
        format!("{}=tok; Path=/; Max-Age=60; HttpOnly; SameSite=Lax", COOKIE_NAME)
    );
    assert_eq!(
        web_session_cookie("tok", 3600),
        format!("{}=tok; Path=/; Max-Age=3600; HttpOnly; SameSite=Lax", COOKIE_NAME)
    );
}

#[test]
fn cookie_value_finds_the_first_named_pair() {
    assert_eq!(cookie_value("a=1; b=2; a=3", "a"), Some("1".to_string()));
    assert_eq!(cookie_value(" b = 2; c=x=y", "c"), Some("x=y".to_string()));
    assert_eq!(cookie_value("a=1", "b"), None);
    assert_eq!(cookie_value("", "a"), None);
}

#[test]
fn parse_range_reads_the_first_range() {
    assert_eq!(parse_range(None, 100), Ok((0, 99, false)));
    assert_eq!(parse_range(Some("bytes=0-9"), 100), Ok((0, 9, true)));
    assert_eq!(parse_range(Some("bytes=90-"), 100), Ok((90, 99, true)));
    assert_eq!(parse_range(Some("bytes=-10"), 100), Ok((90, 99, true)));
    assert_eq!(parse_range(Some("bytes=-500"), 100), Ok((0, 99, true)));
    assert_eq!(parse_range(Some("bytes= 5-6 , 7-8"), 100), Ok((5, 6, true)));
}

#[test]
fn parse_range_refuses_bad_ranges() {
    assert_eq!(parse_range(Some("items=0-9"), 100), Err(()));
    assert_eq!(parse_range(Some("bytes="), 100), Err(()));
    assert_eq!(parse_range(Some("bytes=5"), 100), Err(()));
    assert_eq!(parse_range(Some("bytes=-0"), 100), Err(()));
    assert_eq!(parse_range(Some("bytes=9-5"), 100), Err(()));
    assert_eq!(parse_range(Some("bytes=100-"), 100), Err(()));
    assert_eq!(parse_range(Some("bytes=a-b"), 100), Err(()));
    assert_eq!(parse_range(Some("bytes=5-6"), 0), Err(()));
}

#[test]
fn connection_status_messages() {
    let b = connection_status_body(1);
    assert_eq!(b.message, "waiting for approval");
    assert_eq!(b.poll_after_ms, 2000);
    assert!(b.auth_token.is_none());
    assert_eq!(connection_status_body(2).message, "approved");
    assert_eq!(connection_status_body(3).message, "rejected");
    assert_eq!(connection_status_body(0).message, "unauthenticated");
}

#[test]
fn scope_options_follow_the_settings() {
    let mut c = config();
    c.web_access_scope_download = false;
    let opts = auth_scope_options(&c);
    let names: Vec<String> = opts.iter().map(|o| o.name.clone()).collect();
    assert_eq!(names, vec!["files", "clipboard_list", "clipboard_content", "download"]);
    assert!(opts[0].enabled);
    assert!(!opts[3].enabled);
    assert_eq!(opts[0].label, "文件共享");
}

#[test]
fn scopes_from_names() {
    let c = config();
    assert_eq!(enabled_scopes(&c).len(), 4);
    let names = vec!["files".to_string(), " files ".to_string(), "download".to_string()];
    let scopes = scopes_from_optional_names(Some(&names[..]), &c).unwrap();
    assert_eq!(scopes, vec![WebAccessScope::Files, WebAccessScope::Download]);
    assert_eq!(scope_names(&scopes), vec!["files", "download"]);
    let bad = vec!["nope".to_string()];
    assert_eq!(
        scopes_from_optional_names(Some(&bad[..]), &c),
        Err("未知的网页访问权限: nope".to_string())
    );
    let none: Vec<String> = Vec::new();
    assert_eq!(
        scopes_from_optional_names(Some(&none[..]), &c),
        Err("至少选择一个网页访问权限".to_string())
    );
}

#[test]
fn issued_session_opens_the_browser() {
    let c = config();
    let mut auth = WebAuthState::new();
    let session = auth.issue_session(vec![WebAccessScope::Files], 3600);
    assert_eq!(session.token.len(), 64);
    let header = format!("x=1; {}={}", COOKIE_NAME, session.token);
    assert_eq!(authorize_browser_request(&c, &mut auth, Some(&header), WebAccessScope::Files), Ok(()));
    assert_eq!(
        authorize_browser_request(&c, &mut auth, Some(&header), WebAccessScope::Download),
        Err(BrowserRefusal::AuthRequired)
    );
    assert_eq!(
        authorize_browser_request(&c, &mut auth, None, WebAccessScope::Files),
        Err(BrowserRefusal::AuthRequired)
    );
}

#[test]
fn browser_refusals_follow_the_settings() {
    let mut auth = WebAuthState::new();
    let mut c = config();
    c.browser_access_enabled = false;
    assert_eq!(
        authorize_browser_request(&c, &mut auth, None, WebAccessScope::Files),
        Err(BrowserRefusal::AccessDisabled)
    );
    let mut c = config();
    c.web_access_scope_files = false;
    assert_eq!(
        authorize_browser_request(&c, &mut auth, None, WebAccessScope::Files),
        Err(BrowserRefusal::ScopeDisabled)
    );
    let mut c = config();
    c.web_access_auth_required = false;
    assert_eq!(authorize_browser_request(&c, &mut auth, None, WebAccessScope::Files), Ok(()));
    assert_eq!(BrowserRefusal::AccessDisabled.title(), "浏览器访问已关闭");
}

#[test]
fn approved_request_grants_a_session() {
    let c = config();
    let mut auth = WebAuthState::new();
    let req = auth.create_request("phone".to_string(), "10.0.0.2".to_string(), None, vec![WebAccessScope::ClipboardList]);
    assert_eq!(req.id.len(), 36);
    assert_eq!(req.auth_status, 1);
    assert_eq!(auth.pending_requests().len(), 1);
    let decided = auth.decide_request(&req.id, 2, None, 600).unwrap();
    assert_eq!(decided.auth_status, 2);
    let token = decided.session_token.clone().unwrap();
    assert_eq!(token.len(), 64);
    assert!(token.chars().all(|c| c.is_ascii_digit() || ('a'..='f').contains(&c)));
    let header = format!("{}={}", COOKIE_NAME, token);
    assert_eq!(
        authorize_browser_request(&c, &mut auth, Some(&header), WebAccessScope::ClipboardList),
        Ok(())
    );
    assert_eq!(
        auth.decide_request(&req.id, 3, None, 600).err(),
        Some("网页访问请求已经处理".to_string())
    );
    assert_eq!(auth.pending_requests().len(), 0);
}

#[test]
fn rejected_request_grants_nothing() {
    let mut auth = WebAuthState::new();
    let req = auth.create_request("x".to_string(), "ip".to_string(), None, vec![WebAccessScope::Files]);
    let decided = auth.decide_request(&req.id, 3, None, 600).unwrap();
    assert_eq!(decided.auth_status, 3);
    assert!(decided.session_token.is_none());
    assert_eq!(auth.decide_request(&req.id, 5, None, 600).err(), Some("只能同意或拒绝网页访问请求".to_string()));
    assert_eq!(auth.decide_request("missing", 2, None, 600).err(), Some("网页访问请求不存在或已过期".to_string()));
    assert_eq!(auth.decide_request(&req.id, 3, None, u64::MAX).err(), Some("网页访问请求已经处理".to_string()));
    assert_eq!(auth.decide_request(&req.id, 2, None, u64::MAX).err(), Some("网页访问请求已经处理".to_string()));
    assert_eq!(auth.decide_request("missing", 2, None, u64::MAX).err(), Some("网页访问请求不存在或已过期".to_string()));
}

fn row(status: i32, shared: i32, device: Option<&str>) -> InboundConnectionRow {
    InboundConnectionRow {
        user_id: "u".to_string(),
        user_name: None,
        ip: "1.2.3.4".to_string(),
        device_id: device.map(|d| d.to_string()),
        auth_status: status,
        is_shared: shared,
        is_trusted: shared,
        granted_at: None,
        revoked_at: None,
        last_seen_at: None,
    }
}

#[test]
fn connection_requests() {
    assert_eq!(
        connection_request_decision("  ", None, None, None, None, false, None, 1, None, 5).err(),
        Some(ConnectionRefusal::MissingUserId)
    );
    assert_eq!(
        connection_request_decision("u", None, None, Some("x"), None, true, Some("pw"), 1, None, 5).err(),
        Some(ConnectionRefusal::BadPassword)
    );
    assert_eq!(
        connection_request_decision("u", None, None, None, None, true, None, 1, None, 5).err(),
        Some(ConnectionRefusal::BadPassword)
    );
    let pending = connection_request_decision(" u ", Some(" Bob "), Some("dev"), Some(" pw "), Some(" "), true, Some("pw"), 1, None, 5).unwrap();
    assert_eq!(pending.user_id, "u");
    assert_eq!(pending.user_name, Some("Bob".to_string()));
    assert_eq!(pending.ip, "unknown");
    assert_eq!(pending.auth_status, 1);
    assert_eq!(pending.is_shared, 0);
    assert_eq!(pending.granted_at, None);
    let open = connection_request_decision("u", None, Some("dev"), None, Some("10.0.0.9"), false, None, 0, None, 7).unwrap();
    assert_eq!(open.auth_status, 2);
    assert_eq!(open.is_shared, 1);
    assert_eq!(open.granted_at, Some(7));
    assert_eq!(client_row_decision(Some(&open), "dev"), Ok(()));
    let rejected = connection_request_decision("u", None, Some("dev"), None, None, false, None, 0, Some(row(3, 0, Some("dev"))), 9).unwrap();
    assert_eq!(rejected.auth_status, 3);
    assert_eq!(ConnectionRefusal::BadPassword.message(), "password required or invalid");
}

#[test]
fn client_checks() {
    assert_eq!(client_credentials(None, Some("d")), Err(ClientRefusal::MissingUserId));
    assert_eq!(client_credentials(Some(" u "), Some("  ")), Err(ClientRefusal::MissingDeviceId));
    assert_eq!(client_credentials(Some(" u "), Some(" d ")), Ok(("u".to_string(), "d".to_string())));
    assert_eq!(client_row_decision(None, "d"), Err(ClientRefusal::UnknownConnection));
    assert_eq!(client_row_decision(Some(&row(1, 1, Some("d"))), "d"), Err(ClientRefusal::NotApproved));
    assert_eq!(client_row_decision(Some(&row(2, 0, Some("d"))), "d"), Err(ClientRefusal::NotApproved));
    assert_eq!(client_row_decision(Some(&row(2, 1, Some("e"))), "d"), Err(ClientRefusal::UntrustedDevice));
    assert_eq!(client_row_decision(Some(&row(2, 1, Some("d"))), "d"), Ok(()));
    assert!(ClientRefusal::UnknownConnection.is_unauthorized());
    assert!(!ClientRefusal::NotApproved.is_unauthorized());
    assert_eq!(ClientRefusal::UntrustedDevice.message(), "device is not trusted");
}

#[test]
fn served_paths_stay_inside_roots() {
    let roots = vec![
        ServedRoot { path: "/srv/share".to_string(), is_dir: true },
        ServedRoot { path: "/tmp/one.txt".to_string(), is_dir: false },
    ];
    assert!(is_path_allowed("/srv/share/a/b", &roots));
    assert!(is_path_allowed("/srv/share", &roots));
    assert!(!is_path_allowed("/srv/shared", &roots));
    assert!(is_path_allowed("/tmp//one.txt", &roots));
    assert!(!is_path_allowed("/tmp/one.txt/x", &roots));
}

#[test]
fn whole_file_is_served_without_range() {
    match file_response(Some("a \"b\".txt"), 10, None) {
        FileResponse::Content { partial, start, length, whole_file, disposition, content_range } => {
            assert!(!partial);
            assert_eq!((start, length), (0, 10));
            assert!(whole_file);
            assert_eq!(disposition, Some("attachment; filename=\"a _b_.txt\"".to_string()));
            assert_eq!(content_range, None);
        }
        _ => panic!("expected content"),
    }
}

#[test]
fn partial_range_is_served_with_content_range() {
    match file_response(None, 100, Some("bytes=10-19")) {
        FileResponse::Content { partial, start, length, whole_file, disposition, content_range } => {
            assert!(partial);
            assert_eq!((start, length), (10, 10));
            assert!(!whole_file);
            assert_eq!(disposition, Some("attachment; filename=\"download.bin\"".to_string()));
            assert_eq!(content_range, Some("bytes 10-19/100".to_string()));
        }
        _ => panic!("expected content"),
    }
}

#[test]
fn empty_file_and_bad_range() {
    assert!(matches!(file_response(Some("a"), 0, Some("bytes=5-9")), FileResponse::Empty));
    match file_response(Some("a"), 100, Some("bytes=200-300")) {
        FileResponse::Unsatisfiable { range_header } => assert_eq!(range_header, "bytes */100"),
        _ => panic!("expected refusal"),
    }
}

#[test]
fn control_characters_drop_the_download_name() {
    match file_response(Some("bad\nname"), 3, None) {
        FileResponse::Content { disposition, .. } => assert_eq!(disposition, None),
        _ => panic!("expected content"),
    }
}

#[test]
fn escaped_text_holds_no_markup_characters() {
    let e = escape_html("<a href='x' title=\"t\">R&D</a>");
    assert!(!e.contains('<') && !e.contains('>') && !e.contains('"') && !e.contains('\''));
    assert_eq!(escape_html("R&D"), "R&amp;D");
}

#[test]
fn url_encoding_keeps_only_safe_characters() {
    let e = url_encode("a b/c?d=e&f#g 中");
    assert!(e.chars().all(|c| c.is_ascii_alphanumeric() || "-_.~%".contains(c)));
    assert_eq!(url_encode("a b/中"), "a%20b%2F%E4%B8%AD");
}

#[test]
fn returned_session_cookie_reads_back_its_token() {
    let set_cookie = web_session_cookie("tok-123", 3600);
    let pair = set_cookie.split(';').next().unwrap_or_default().to_string();
    assert_eq!(pair, "share_clip_web_session=tok-123");
    assert_eq!(cookie_value(&pair, "share_clip_web_session"), Some("tok-123".to_string()));
    let header = format!("theme=dark; lang=zh; {pair}");
    assert_eq!(cookie_value(&header, "share_clip_web_session"), Some("tok-123".to_string()));
}

#[test]
fn scope_names_read_back_exactly() {
    for s in [WebAccessScope::Files, WebAccessScope::ClipboardList, WebAccessScope::ClipboardContent, WebAccessScope::Download] {
        assert_eq!(WebAccessScope::from_name(s.as_str()), Some(s));
        assert_eq!(WebAccessScope::from_name(&format!("  {}  ", s.as_str())), Some(s));
    }
    assert_eq!(WebAccessScope::from_name("Files"), None);
    assert_eq!(WebAccessScope::from_name(""), None);
    assert_eq!(WebAccessScope::from_name("clipboard"), None);
}

#[test]
fn created_request_is_found_pending() {
    let mut auth = WebAuthState::new();
    let req = auth.create_request("tab".to_string(), "10.0.0.9".to_string(), Some("ua".to_string()), vec![WebAccessScope::Files]);
    let found = auth.request_status(&req.id).unwrap();
    assert_eq!(found.auth_status, 1);
    assert_eq!(found.expires_at, found.created_at + 600);
    assert_eq!(found.client_label, "tab");
    assert!(auth.pending_requests().iter().any(|r| r.id == req.id));
}

#[test]
fn refused_share_paths_map_to_statuses() {
    let absolute = share_file_target(resolve_share_path("/srv", Some("/etc/passwd")), false).unwrap_err();
    assert_eq!(absolute.status(), 403);
    let parent = share_file_target(resolve_share_path("/srv", Some("../x")), false).unwrap_err();
    assert_eq!(parent.status(), 403);
    let missing = share_file_target(Err("no such file or directory".to_string()), false).unwrap_err();
    assert_eq!(missing, ShareFileRefusal::NotFound("no such file or directory".to_string()));
    assert_eq!(missing.status(), 404);
    let dir = share_file_target(Ok("/srv/docs".to_string()), false).unwrap_err();
    assert_eq!((dir.status(), dir.message()), (400, "path is not a file".to_string()));
    assert_eq!(share_file_target(Ok("/srv/a.txt".to_string()), true), Ok("/srv/a.txt".to_string()));
}

#[test]
fn file_response_statuses() {
    assert_eq!(file_response(Some("a"), 0, None).status(), 200);
    assert_eq!(file_response(Some("a"), 10, None).status(), 200);
    assert_eq!(file_response(Some("a"), 10, Some("bytes=2-4")).status(), 206);
    assert_eq!(file_response(Some("a"), 10, Some("bytes=20-30")).status(), 416);
}
