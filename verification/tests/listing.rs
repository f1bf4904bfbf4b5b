use share_clip::config::AppConfig;
use share_clip::ordering::{key_less, sorted_order};
use share_clip::pages::{
    clipboard_paging, entry_row, file_card_body, file_list_order, file_node, listing_body,
    directory_page, error_page, file_page, format_timestamp, listing_order, page_shell,
    parent_link, parent_row, share_row, start_page, status_labels, FileNode, ShareUnavailable,
};
use share_clip::paths::is_forbidden_path_error;
use share_clip::remote_share::{
    cached_children, cached_file_listing, cached_share_roots, remote_user_of, SharedFileIndexRow,
};
use share_clip::web::ShareItem;

fn row(share: &str, path: &str, name: &str, is_dir: i32) -> SharedFileIndexRow {
    SharedFileIndexRow {
        user_id: "u".to_string(),
        shared_file_id: share.to_string(),
        relative_path: path.to_string(),
        name: name.to_string(),
        is_dir,
        local_cache_path: None,
        size: None,
        mtime: None,
        hash: None,
        remote_deleted: 0,
        cache_status: 2,
        last_accessed_at: None,
        updated_at: None,
    }
}

fn node(name: &str, is_dir: bool) -> FileNode {
    FileNode { name: name.to_string(), relative_path: name.to_string(), is_dir, size: Some(1) }
}

#[test]
fn stable_order_of_keys() {
    let keys = vec![
        vec![vec![1u64], vec![2]],
        vec![vec![0u64]],
        vec![vec![1u64], vec![2]],
        vec![vec![1u64]],
    ];
    assert_eq!(sorted_order(&keys), vec![1, 3, 0, 2]);
    assert!(key_less(&vec![vec![1]], &vec![vec![1], vec![0]]));
    assert!(!key_less(&vec![vec![2]], &vec![vec![1], vec![9]]));
}

#[test]
fn cached_directory_lists_folders_first() {
    let rows = vec![
        row("s1", "b", "b", 0),
        row("s1", "d", "d", 1),
        row("s1", "a", "a", 0),
        row("s2", "c", "c", 0),
        row("s1", "d/e", "e", 0),
        row("s1", ".", "Share", 1),
    ];
    let names: Vec<String> = cached_children("u", "s1", ".", &rows).into_iter().map(|i| i.name).collect();
    assert_eq!(names, vec!["d", "a", "b"]);
    let inside: Vec<String> = cached_children("u", "s1", "d", &rows).into_iter().map(|i| i.name).collect();
    assert_eq!(inside, vec!["e"]);
    let items = cached_children("u", "s1", ".", &rows);
    assert_eq!(items[0].share_name, "Share");
    assert_eq!(items[0].remote_user_id, "u");
}

#[test]
fn cached_shares_list_one_root_each() {
    let rows = vec![
        row("s2", ".", "Zed", 1),
        row("s1", "x/y", "y", 0),
        row("s1", ".", "Alpha", 1),
        row("s3", "deep/file", "file", 0),
    ];
    let roots = cached_share_roots("u", &rows);
    let names: Vec<String> = roots.iter().map(|i| i.name.clone()).collect();
    assert_eq!(names, vec!["Alpha", "Zed", "file"]);
    assert_eq!(roots[2].share_name, "file");
}

#[test]
fn cached_listing_dispatch() {
    let rows = vec![row("s1", "a", "a", 0), row("s1", ".", "S", 1)];
    let children = cached_file_listing("u", Some(" s1 "), None, &rows).unwrap();
    assert_eq!(children.len(), 1);
    let roots = cached_file_listing("u", Some("  "), None, &rows).unwrap();
    assert_eq!(roots.len(), 1);
    assert_eq!(roots[0].name, "S");
    assert!(cached_file_listing("u", Some("s1"), Some("../x"), &rows).is_err());
    assert_eq!(remote_user_of("  u1 ").unwrap(), "u1");
    assert!(remote_user_of("   ").is_err());
}

#[test]
fn listings_sort_folders_first() {
    let nodes = vec![node("b", false), node("A", false), node("z", true), node("B", false)];
    assert_eq!(listing_order(&nodes), vec![2, 1, 0, 3]);
    assert_eq!(file_list_order(&nodes), vec![2, 1, 3, 0]);
}

#[test]
fn file_nodes_are_relative_to_their_root() {
    let n = file_node("/srv", "/srv/a/b.txt", false, Some(4));
    assert_eq!(n.name, "b.txt");
    assert_eq!(n.relative_path, "a/b.txt");
    assert_eq!(n.size, Some(4));
}

#[test]
fn page_pieces() {
    assert_eq!(
        parent_row("s 1", "a"),
        "<a class=\"row\" href=\"/share/s%201?path=a\"><span class=\"icon\">↩</span><span class=\"name\">上一级</span><span class=\"kind\">目录</span><span class=\"size\">-</span><span class=\"time\">-</span></a>"
    );
    assert!(parent_link("s", ".").is_none());
    assert_eq!(parent_link("s", "a/b"), Some(parent_row("s", "a")));
    let dir = FileNode { name: "<d>".to_string(), relative_path: "d".to_string(), is_dir: true, size: None };
    assert_eq!(
        entry_row("s", &dir, "9 B"),
        "<a class=\"row\" href=\"/share/s?path=d\"><span class=\"icon\">📁</span><span class=\"name\">&lt;d&gt;</span><span class=\"kind\">目录</span><span class=\"size\">-</span><span class=\"time\">-</span></a>"
    );
    let file = node("f.txt", false);
    assert!(entry_row("s", &file, "9 B").contains("href=\"/api/files/s/download?path=f.txt\""));
    assert!(entry_row("s", &file, "9 B").contains("<span class=\"size\">9 B</span>"));
    assert_eq!(
        listing_body("a&b", &Vec::new()),
        "<p><a class=\"button\" href=\"/\">共享列表</a> <span class=\"crumb\">a&amp;b</span></p><div class=\"empty\">这个目录是空的。</div>"
    );
    let body = listing_body(".", &vec!["<r1>".to_string(), "<r2>".to_string()]);
    assert!(body.ends_with("<r1><r2></div>"));
    let card = file_card_body("s", "f.txt", "dir/f.txt");
    assert!(card.contains("<h2>f.txt</h2>"));
    assert!(card.contains("href=\"/api/files/s/download?path=dir%2Ff.txt\""));
    let item = ShareItem { id: "i".to_string(), name: "n".to_string(), kind: 2, size: None, updated_at: None };
    let r = share_row(&item, "-", "-");
    assert!(r.contains("<span class=\"kind\">图片</span>"));
    assert!(r.starts_with("<a class=\"row\" href=\"/share/i\">"));
}

#[test]
fn start_page_status() {
    let mut c = AppConfig::default_for("d".to_string(), "n".to_string(), "c".to_string());
    assert_eq!(status_labels(&c), ("已开启", "已开启", "需要确认", "未启用"));
    c.browser_access_enabled = false;
    c.share_server_auth_mode = 0;
    c.web_access_password_enabled = true;
    assert_eq!(status_labels(&c), ("已关闭", "已开启", "自动授权", "已启用"));
}

#[test]
fn clipboard_pages_and_path_errors() {
    assert_eq!(clipboard_paging(None, None), (1, 20, 0));
    assert_eq!(clipboard_paging(Some(2), Some(500)), (2, 100, 100));
    assert!(is_forbidden_path_error("path is outside share root"));
    assert!(is_forbidden_path_error("invalid relative path"));
    assert!(!is_forbidden_path_error("path not found"));
}

#[test]
fn timestamps_read_as_utc_minutes() {
    assert_eq!(format_timestamp(Some(0)), "1970-01-01 00:00");
    assert_eq!(format_timestamp(Some(1_700_000_000)), "2023-11-14 22:13");
    assert_eq!(format_timestamp(None), "-");
    assert_eq!(format_timestamp(Some(i64::MAX)), "-");
}

#[test]
fn page_shell_wraps_body_with_escaped_title() {
    let title = "A&B <docs>";
    let body = "<p class=\"empty\">x</p>";
    let expected = format!(
        r#"<!doctype html>
<html lang="zh-CN">
<meta charset="utf-8">
<meta name="viewport" content="width=device-width, initial-scale=1">
<title>{title}</title>
<style>
  :root {{ color-scheme: light; font-family: "Segoe UI", system-ui, -apple-system, sans-serif; }}
  body {{ margin: 0; min-height: 100vh; background: #f6f8fb; color: #0f172a; }}
  main {{ box-sizing: border-box; width: min(900px, calc(100vw - 32px)); margin: 0 auto; padding: 42px 0; }}
  section {{ border: 1px solid #dbe3ee; border-radius: 10px; background: rgba(255,255,255,.9); box-shadow: 0 12px 32px rgba(15,23,42,.08); overflow: hidden; }}
  header {{ padding: 22px 26px 16px; border-bottom: 1px solid #e5ebf3; }}
  h1 {{ margin: 0 0 8px; font-size: 24px; line-height: 1.25; }}
  h2 {{ margin: 0 0 8px; font-size: 18px; }}
  p {{ margin: 0 0 14px; color: #475569; line-height: 1.7; }}
  .content {{ padding: 20px 26px 26px; }}
  .button {{ display: inline-block; border: 1px solid #bae6fd; border-radius: 8px; background: #f0f9ff; padding: 8px 11px; color: #0369a1; text-decoration: none; font-size: 14px; }}
  .crumb {{ display: inline-block; margin-left: 8px; color: #64748b; font-size: 13px; }}
  .table {{ border: 1px solid #e2e8f0; border-radius: 8px; overflow: hidden; background: #fff; }}
  .head, .row {{ display: grid; grid-template-columns: 32px minmax(0, 1fr) 78px 88px 140px; gap: 10px; align-items: center; padding: 10px 12px; }}
  .head {{ background: #f8fafc; color: #64748b; font-size: 12px; font-weight: 650; }}
  .row {{ border-top: 1px solid #e2e8f0; color: #0f172a; text-decoration: none; }}
  .row:hover {{ background: #f0f9ff; }}
  .name {{ min-width: 0; overflow: hidden; text-overflow: ellipsis; white-space: nowrap; font-weight: 600; }}
  .kind, .size, .time {{ color: #64748b; font-size: 13px; }}
  .empty {{ border: 1px dashed #cbd5e1; border-radius: 8px; padding: 18px; color: #64748b; background: #fff; }}
  .file-card {{ display: flex; gap: 16px; border: 1px solid #e2e8f0; border-radius: 8px; background: #fff; padding: 18px; }}
  .file-icon {{ font-size: 36px; }}
  @media (max-width: 640px) {{ .head, .row {{ grid-template-columns: 28px minmax(0, 1fr) 70px; }} .size, .time {{ display: none; }} }}
</style>
<body>
  <main>
    <section>
      <header>
        <h1>{title}</h1>
        <p>Share Clip Web 文件浏览</p>
      </header>
      <div class="content">{body}</div>
    </section>
  </main>
</body>
</html>"#,
        title = "A&amp;B &lt;docs&gt;",
        body = body,
    );
    assert_eq!(page_shell(title, body), expected);
}

#[test]
fn error_page_keeps_message_markup() {
    let title = "需要授权";
    let message = "请先打开 <a href=\"/auth\">Web 授权页面</a>";
    let expected = format!(
        r#"<!doctype html>
<html lang="zh-CN">
<meta charset="utf-8">
<meta name="viewport" content="width=device-width, initial-scale=1">
<title>{title}</title>
<style>
  body {{ margin: 0; min-height: 100vh; display: grid; place-items: center; background: #f6f8fb; color: #0f172a; font-family: "Segoe UI", system-ui, sans-serif; }}
  main {{ width: min(520px, calc(100vw - 32px)); border: 1px solid #dbe3ee; border-radius: 10px; background: white; padding: 26px; box-shadow: 0 12px 32px rgba(15,23,42,.08); }}
  h1 {{ margin: 0 0 10px; font-size: 22px; }}
  p {{ margin: 0; color: #475569; line-height: 1.7; }}
  a {{ color: #0369a1; text-decoration: none; }}
</style>
<main><h1>{title}</h1><p>{message}</p></main>
</html>"#,
        title = title,
        message = message,
    );
    assert_eq!(error_page(title, message), expected);
}

fn listed_node(name: &str, rel: &str, is_dir: bool, size: Option<u64>) -> FileNode {
    FileNode { name: name.to_string(), relative_path: rel.to_string(), is_dir, size }
}

#[test]
fn directory_page_lists_folders_first_under_the_parent_link() {
    let nodes = vec![
        listed_node("b.txt", "docs/b.txt", false, Some(10)),
        listed_node("Zeta", "docs/Zeta", true, None),
        listed_node("a.txt", "docs/a.txt", false, Some(20)),
    ];
    let sizes = vec!["10 B".to_string(), "-".to_string(), "20 B".to_string()];
    let page = directory_page("Share", "id1", "docs", &nodes, &sizes);
    let rows = vec![
        parent_row("id1", "."),
        entry_row("id1", &nodes[1], "-"),
        entry_row("id1", &nodes[2], "20 B"),
        entry_row("id1", &nodes[0], "10 B"),
    ];
    assert_eq!(page, page_shell("Share", &listing_body("docs", &rows)));
    assert!(page.contains("<title>Share</title>"));
    let root = directory_page("Share", "id1", ".", &vec![], &vec![]);
    assert!(root.contains("这个目录是空的。"));
    assert!(!root.contains("上一级"));
}

#[test]
fn file_page_shows_the_download_link() {
    let page = file_page("Share", "id1", "a.txt", "docs/a.txt");
    assert_eq!(page, page_shell("Share", &file_card_body("id1", "a.txt", "docs/a.txt")));
    assert!(page.contains("/api/files/id1/download?path=docs%2Fa.txt"));
}

#[test]
fn unavailable_share_pages() {
    assert!(ShareUnavailable::Missing.page().contains("<title>共享不存在</title>"));
    assert!(ShareUnavailable::PathRefused.page().contains("路径不存在或不允许访问。"));
    assert!(ShareUnavailable::RootMissing.page().contains("共享根目录不存在。"));
    assert!(ShareUnavailable::Unreadable.page().contains("无法读取当前目录。"));
}

#[test]
fn start_page_reports_settings_and_shares() {
    let c = AppConfig::default_for("d".to_string(), "Desk".to_string(), "cache".to_string());
    let rows = vec!["<a>one</a>".to_string(), "<a>two</a>".to_string()];
    let share_count = 2;
    let browser_status = "已开启";
    let sync_status = "已开启";
    let auth_status = "需要确认";
    let password_status = "未启用";
    let rows_html = "<a>one</a><a>two</a>";
    let expected = format!(
        r#"<!doctype html>
<html lang="zh-CN">
<meta charset="utf-8">
<meta name="viewport" content="width=device-width, initial-scale=1">
<title>Share Clip 共享服务</title>
<style>
  :root {{ color-scheme: light; font-family: "Segoe UI", system-ui, -apple-system, sans-serif; }}
  body {{ margin: 0; min-height: 100vh; background: #f6f8fb; color: #0f172a; }}
  main {{ box-sizing: border-box; width: min(760px, calc(100vw - 32px)); margin: 0 auto; padding: 48px 0; }}
  section {{ border: 1px solid #dbe3ee; border-radius: 10px; background: rgba(255,255,255,.86); box-shadow: 0 12px 32px rgba(15,23,42,.08); overflow: hidden; }}
  header {{ padding: 24px 28px 18px; border-bottom: 1px solid #e5ebf3; }}
  h1 {{ margin: 0 0 8px; font-size: 24px; line-height: 1.25; }}
  h2 {{ margin: 22px 0 10px; font-size: 16px; }}
  p {{ margin: 0; color: #475569; line-height: 1.7; }}
  .content {{ padding: 22px 28px 26px; }}
  .grid {{ display: grid; grid-template-columns: repeat(auto-fit, minmax(160px, 1fr)); gap: 10px; margin-bottom: 18px; }}
  .metric {{ border: 1px solid #e2e8f0; border-radius: 8px; background: #fff; padding: 12px; }}
  .label {{ font-size: 12px; color: #64748b; }}
  .value {{ margin-top: 4px; font-size: 16px; font-weight: 650; }}
  .links {{ display: flex; flex-wrap: wrap; gap: 10px; margin: 18px 0; }}
  a {{ color: #0369a1; text-decoration: none; }}
  a.button {{ border: 1px solid #bae6fd; border-radius: 8px; background: #f0f9ff; padding: 9px 12px; font-size: 14px; }}
  .table {{ border: 1px solid #e2e8f0; border-radius: 8px; overflow: hidden; background: #fff; }}
  .head, .row {{ display: grid; grid-template-columns: 32px minmax(0, 1fr) 78px 88px 140px; gap: 10px; align-items: center; padding: 10px 12px; }}
  .head {{ background: #f8fafc; color: #64748b; font-size: 12px; font-weight: 650; }}
  .row {{ border-top: 1px solid #e2e8f0; color: #0f172a; }}
  .row:hover {{ background: #f0f9ff; }}
  .name {{ min-width: 0; overflow: hidden; text-overflow: ellipsis; white-space: nowrap; font-weight: 600; }}
  .kind, .size, .time {{ color: #64748b; font-size: 13px; }}
  .empty {{ border: 1px dashed #cbd5e1; border-radius: 8px; padding: 18px; color: #64748b; background: #fff; }}
  code {{ border-radius: 6px; background: #eef2f7; padding: 2px 6px; font-size: 13px; }}
  .notice {{ border-left: 3px solid #f59e0b; background: #fffbeb; padding: 11px 13px; color: #78350f; font-size: 14px; line-height: 1.65; }}
  @media (max-width: 640px) {{ .head, .row {{ grid-template-columns: 28px minmax(0, 1fr) 70px; }} .size, .time {{ display: none; }} }}
</style>
<body>
  <main>
    <section>
      <header>
        <h1>Share Clip 共享服务正在运行</h1>
        <p>这表示当前设备正在对局域网开放共享服务。你可以在应用的“文件共享”和“设备连接”页面管理共享内容与授权。</p>
      </header>
      <div class="content">
        <div class="grid">
          <div class="metric"><div class="label">共享项</div><div class="value">{share_count}</div></div>
          <div class="metric"><div class="label">浏览器访问</div><div class="value">{browser_status}</div></div>
          <div class="metric"><div class="label">客户端同步</div><div class="value">{sync_status}</div></div>
          <div class="metric"><div class="label">连接授权</div><div class="value">{auth_status}</div></div>
          <div class="metric"><div class="label">Web 访问密码</div><div class="value">{password_status}</div></div>
        </div>
        <h2>可访问的共享</h2>
        <div class="table">
          <div class="head"><span></span><span>名称</span><span>类型</span><span>大小</span><span>更新时间</span></div>
          {rows_html}
        </div>
        <div class="links">
          <a class="button" href="/health">服务健康检查</a>
          <a class="button" href="/api/shares">JSON API</a>
          <a class="button" href="/clipboard/1">剪切板网页</a>
          <a class="button" href="/api/clipboard/list?page=1&page_size=20">剪切板 API</a>
        </div>
        <p class="notice">安全提醒：请只在可信网络中开放共享服务。若需要给其他设备访问，建议启用访问密码，并保持“连接授权”为需要确认。</p>
      </div>
    </section>
  </main>
</body>
</html>"#
    );
    assert_eq!(start_page(&c, &rows), expected);
    let empty = start_page(&c, &vec![]);
    assert!(empty.contains("暂无共享项。"));
    assert!(empty.contains("<div class=\"value\">0</div>"));
}
