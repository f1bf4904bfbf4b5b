use vstd::prelude::*;

use crate::config::AppConfig;
use crate::ordering::{is_sorted_order, key_view, keys_view, positions, sorted_order};
use crate::paths::{relative_path_for, relative_path_spec};
use crate::record_files::{file_name, file_name_of};
use crate::remote_share::{text_key, text_word};
use crate::text::num::{nat_text, u64_text};
use crate::text::strs::{chars_of, string_of};
use crate::web::{
    download_href, download_href_spec, escape_html, escaped_html, parent_path, parent_path_spec,
    path_query, path_query_spec, url_encode, url_encoded,
};

verus! {

broadcast use vstd::string::group_string_axioms;

// ---------------------------------------------------------------------------
// Entries of a shared directory
// ---------------------------------------------------------------------------

/// An entry of a shared directory as the browser pages and the clients list
/// it.
pub struct FileNode {
    pub name: String,
    pub relative_path: String,
    pub is_dir: bool,
    pub size: Option<u64>,
}

/// An entry of a shared directory at `path` (under the share's `root`),
/// given what the disk says of it: named after its file name (its whole path
/// where it has none), with its path relative to the root.
pub fn file_node(root: &str, path: &str, is_dir: bool, size: Option<u64>) -> (n: FileNode)
    ensures
        n.name@ == match file_name_of(path@) {
            Some(x) => x,
            None => path@,
        },
        n.relative_path@ == relative_path_spec(root@, path@),
        n.is_dir == is_dir,
        n.size == size,
{
    let name = match file_name(path) {
        Some(x) => x,
        None => path.to_owned(),
    };
    FileNode { name, relative_path: relative_path_for(root, path), is_dir, size }
}

/// The lowercase form of a text, as `str::to_lowercase` maps it (Unicode
/// case mapping).
pub uninterp spec fn unicode_lowercase(s: Seq<char>) -> Seq<char>;

/// Lowercases a text with std's `str::to_lowercase`. The contract claims
/// only that the result is a function of the text (`unicode_lowercase`).
#[verifier::external_body]
fn to_lowercase(s: &str) -> (r: String)
    ensures
        r@ == unicode_lowercase(s@),
{
    s.to_lowercase()
}

/// The order of a directory listing: folders first, then by lowercase name.
pub open spec fn node_key(n: FileNode) -> Seq<Seq<u64>> {
    seq![seq![if n.is_dir { 0u64 } else { 1u64 }], text_key(unicode_lowercase(n.name@))]
}

pub open spec fn node_keys(nodes: Seq<FileNode>) -> Seq<Seq<Seq<u64>>> {
    nodes.map_values(|n: FileNode| node_key(n))
}

/// The positions of `nodes` in listing order: folders first, then by
/// lowercase name; entries with equal keys keep their order.
pub fn listing_order(nodes: &Vec<FileNode>) -> (order: Vec<usize>)
    ensures
        is_sorted_order(node_keys(nodes@), positions(order@), nodes@.len() as int),
{
    let mut keys: Vec<Vec<Vec<u64>>> = Vec::new();
    let mut i: usize = 0;
    while i < nodes.len()
        invariant
            i <= nodes@.len(),
            keys@.len() == i,
            forall|k: int| 0 <= k < i ==> key_view(#[trigger] keys@[k]) == node_key(nodes@[k]),
        decreases nodes.len() - i,
    {
        let flag: u64 = if nodes[i].is_dir {
            0
        } else {
            1
        };
        let a = vec![flag];
        let lower = to_lowercase(nodes[i].name.as_str());
        let b = text_word(lower.as_str());
        let key = vec![a, b];
        assert(key@[0]@ =~= seq![flag] && key@[1]@ == b@);
        assert(key_view(key) =~= node_key(nodes@[i as int]));
        keys.push(key);
        i = i + 1;
    }
    assert(keys_view(keys@) =~= node_keys(nodes@));
    sorted_order(&keys)
}

// ---------------------------------------------------------------------------
// Pieces of the browser pages
// ---------------------------------------------------------------------------

/// The row that leads from a directory listing to its parent directory.
pub open spec fn parent_row_spec(id: Seq<char>, parent: Seq<char>) -> Seq<char> {
    "<a class=\"row\" href=\"/share/"@ + url_encoded(id) + path_query_spec(parent)
        + "\"><span class=\"icon\">↩</span><span class=\"name\">上一级</span><span class=\"kind\">目录</span><span class=\"size\">-</span><span class=\"time\">-</span></a>"@
}

/// The row that leads from a directory listing to its parent directory.
pub fn parent_row(id: &str, parent: &str) -> (r: String)
    ensures
        r@ == parent_row_spec(id@, parent@),
{
    let mut out = String::from_str("<a class=\"row\" href=\"/share/");
    out.append(url_encode(id).as_str());
    out.append(path_query(parent).as_str());
    out.append(
        "\"><span class=\"icon\">↩</span><span class=\"name\">上一级</span><span class=\"kind\">目录</span><span class=\"size\">-</span><span class=\"time\">-</span></a>",
    );
    out
}

/// The row of one entry of a directory listing: folders open their listing,
/// files download; `size_text` is the file's size as shown.
pub open spec fn entry_row_spec(id: Seq<char>, node: FileNode, size_text: Seq<char>) -> Seq<char> {
    let href = if node.is_dir {
        "/share/"@ + url_encoded(id) + path_query_spec(node.relative_path@)
    } else {
        download_href_spec(id, node.relative_path@)
    };
    "<a class=\"row\" href=\""@ + href + "\"><span class=\"icon\">"@ + (if node.is_dir {
        "📁"@
    } else {
        "📄"@
    }) + "</span><span class=\"name\">"@ + escaped_html(node.name@)
        + "</span><span class=\"kind\">"@ + (if node.is_dir {
        "目录"@
    } else {
        "文件"@
    }) + "</span><span class=\"size\">"@ + (if node.is_dir {
        "-"@
    } else {
        size_text
    }) + "</span><span class=\"time\">-</span></a>"@
}

/// The row of one entry of a directory listing.
pub fn entry_row(id: &str, node: &FileNode, size_text: &str) -> (r: String)
    ensures
        r@ == entry_row_spec(id@, *node, size_text@),
{
    let href: String = if node.is_dir {
        let mut h = String::from_str("/share/");
        h.append(url_encode(id).as_str());
        h.append(path_query(node.relative_path.as_str()).as_str());
        h
    } else {
        download_href(id, node.relative_path.as_str())
    };
    let mut out = String::from_str("<a class=\"row\" href=\"");
    out.append(href.as_str());
    out.append("\"><span class=\"icon\">");
    out.append(
        if node.is_dir {
            "📁"
        } else {
            "📄"
        },
    );
    out.append("</span><span class=\"name\">");
    out.append(escape_html(node.name.as_str()).as_str());
    out.append("</span><span class=\"kind\">");
    out.append(
        if node.is_dir {
            "目录"
        } else {
            "文件"
        },
    );
    out.append("</span><span class=\"size\">");
    out.append(
        if node.is_dir {
            "-"
        } else {
            size_text
        },
    );
    out.append("</span><span class=\"time\">-</span></a>");
    out
}

/// The concatenation of rows.
pub open spec fn concat_all(rows: Seq<Seq<char>>) -> Seq<char>
    decreases rows.len(),
{
    if rows.len() == 0 {
        Seq::empty()
    } else {
        concat_all(rows.drop_last()) + rows.last()
    }
}

/// The body of a directory page: the link back to the list and the current
/// path, then the table of rows, or a note that the directory is empty.
pub open spec fn listing_body_spec(current_path: Seq<char>, rows: Seq<Seq<char>>) -> Seq<char> {
    let list = if rows.len() == 0 {
        "<div class=\"empty\">这个目录是空的。</div>"@
    } else {
        "<div class=\"table\"><div class=\"head\"><span></span><span>名称</span><span>类型</span><span>大小</span><span>更新时间</span></div>"@
            + concat_all(rows) + "</div>"@
    };
    "<p><a class=\"button\" href=\"/\">共享列表</a> <span class=\"crumb\">"@ + escaped_html(
        current_path,
    ) + "</span></p>"@ + list
}

/// The body of a directory page.
pub fn listing_body(current_path: &str, rows: &Vec<String>) -> (r: String)
    ensures
        r@ == listing_body_spec(current_path@, rows@.map_values(|s: String| s@)),
{
    let mut out = String::from_str("<p><a class=\"button\" href=\"/\">共享列表</a> <span class=\"crumb\">");
    out.append(escape_html(current_path).as_str());
    out.append("</span></p>");
    if rows.len() == 0 {
        out.append("<div class=\"empty\">这个目录是空的。</div>");
        return out;
    }
    out.append(
        "<div class=\"table\"><div class=\"head\"><span></span><span>名称</span><span>类型</span><span>大小</span><span>更新时间</span></div>",
    );
    let ghost start = out@;
    let ghost views = rows@.map_values(|s: String| s@);
    let mut i: usize = 0;
    while i < rows.len()
        invariant
            i <= rows@.len(),
            views == rows@.map_values(|s: String| s@),
            out@ == start + concat_all(views.take(i as int)),
        decreases rows.len() - i,
    {
        out.append(rows[i].as_str());
        assert(views.take(i + 1).drop_last() =~= views.take(i as int));
        assert(views.take(i + 1).last() == rows@[i as int]@);
        i = i + 1;
    }
    assert(views.take(rows.len() as int) =~= views);
    out.append("</div>");
    out
}

/// The body of a page that shows one shared file with its download link.
pub open spec fn file_card_spec(id: Seq<char>, name: Seq<char>, path: Seq<char>) -> Seq<char> {
    "<p><a class=\"button\" href=\"/\">共享列表</a> <a class=\"button\" href=\"/share/"@
        + url_encoded(id)
        + "\">共享根目录</a></p>\n<div class=\"file-card\">\n  <div class=\"file-icon\">📄</div>\n  <div>\n    <h2>"@
        + escaped_html(name) + "</h2>\n    <p>"@ + escaped_html(path)
        + "</p>\n    <p><a class=\"button\" href=\""@ + download_href_spec(id, path)
        + "\">下载文件</a></p>\n  </div>\n</div>"@
}

/// The body of a page that shows one shared file with its download link.
pub fn file_card_body(id: &str, name: &str, path: &str) -> (r: String)
    ensures
        r@ == file_card_spec(id@, name@, path@),
{
    let mut out = String::from_str(
        "<p><a class=\"button\" href=\"/\">共享列表</a> <a class=\"button\" href=\"/share/",
    );
    out.append(url_encode(id).as_str());
    out.append(
        "\">共享根目录</a></p>\n<div class=\"file-card\">\n  <div class=\"file-icon\">📄</div>\n  <div>\n    <h2>",
    );
    out.append(escape_html(name).as_str());
    out.append("</h2>\n    <p>");
    out.append(escape_html(path).as_str());
    out.append("</p>\n    <p><a class=\"button\" href=\"");
    out.append(download_href(id, path).as_str());
    out.append("\">下载文件</a></p>\n  </div>\n</div>");
    out
}

/// The row of one share in the list of shares; `size_text` and `updated`
/// are the share's size and update time as shown.
pub open spec fn share_row_spec(
    item: crate::web::ShareItem,
    size_text: Seq<char>,
    updated: Seq<char>,
) -> Seq<char> {
    "<a class=\"row\" href=\"/share/"@ + url_encoded(item.id@) + "\">\n  <span class=\"icon\">"@
        + (if item.kind == 1 {
        "📁"@
    } else {
        "📄"@
    }) + "</span>\n  <span class=\"name\">"@ + escaped_html(item.name@)
        + "</span>\n  <span class=\"kind\">"@ + (if item.kind == 1 {
        "目录"@
    } else if item.kind == 2 {
        "图片"@
    } else {
        "文件"@
    }) + "</span>\n  <span class=\"size\">"@ + size_text + "</span>\n  <span class=\"time\">"@
        + updated + "</span>\n</a>"@
}

/// The row of one share in the list of shares.
pub fn share_row(item: &crate::web::ShareItem, size_text: &str, updated: &str) -> (r: String)
    ensures
        r@ == share_row_spec(*item, size_text@, updated@),
{
    let mut out = String::from_str("<a class=\"row\" href=\"/share/");
    out.append(url_encode(item.id.as_str()).as_str());
    out.append("\">\n  <span class=\"icon\">");
    out.append(crate::web::share_icon(item.kind));
    out.append("</span>\n  <span class=\"name\">");
    out.append(escape_html(item.name.as_str()).as_str());
    out.append("</span>\n  <span class=\"kind\">");
    out.append(crate::web::share_kind_label(item.kind));
    out.append("</span>\n  <span class=\"size\">");
    out.append(size_text);
    out.append("</span>\n  <span class=\"time\">");
    out.append(updated);
    out.append("</span>\n</a>");
    out
}

/// The settings as the server's start page reports them: browser access,
/// client sync, connection approval and the web password.
pub open spec fn status_labels_spec(c: AppConfig) -> (Seq<char>, Seq<char>, Seq<char>, Seq<char>) {
    (
        if c.browser_access_enabled {
            "已开启"@
        } else {
            "已关闭"@
        },
        if c.sync_access_enabled {
            "已开启"@
        } else {
            "已关闭"@
        },
        if c.share_server_auth_mode == 0 {
            "自动授权"@
        } else {
            "需要确认"@
        },
        if c.web_access_password_enabled {
            "已启用"@
        } else {
            "未启用"@
        },
    )
}

/// The settings as the server's start page reports them.
pub fn status_labels(c: &AppConfig) -> (r: (&'static str, &'static str, &'static str, &'static str))
    ensures
        (r.0@, r.1@, r.2@, r.3@) == status_labels_spec(*c),
{
    (
        if c.browser_access_enabled {
            "已开启"
        } else {
            "已关闭"
        },
        if c.sync_access_enabled {
            "已开启"
        } else {
            "已关闭"
        },
        if c.share_server_auth_mode == 0 {
            "自动授权"
        } else {
            "需要确认"
        },
        if c.web_access_password_enabled {
            "已启用"
        } else {
            "未启用"
        },
    )
}

/// The row that leads to the parent of `current_path`, where it has one.
pub fn parent_link(id: &str, current_path: &str) -> (r: Option<String>)
    ensures
        match parent_path_spec(current_path@) {
            Some(p) => r matches Some(s) && s@ == parent_row_spec(id@, p),
            None => r is None,
        },
{
    match parent_path(current_path) {
        Some(p) => Some(parent_row(id, p.as_str())),
        None => None,
    }
}

/// The order of a file listing for clients: folders first, then by name.
pub open spec fn file_key(n: FileNode) -> Seq<Seq<u64>> {
    seq![seq![if n.is_dir { 0u64 } else { 1u64 }], text_key(n.name@)]
}

pub open spec fn file_keys(nodes: Seq<FileNode>) -> Seq<Seq<Seq<u64>>> {
    nodes.map_values(|n: FileNode| file_key(n))
}

/// The positions of `nodes` in the order a file listing gives them: folders
/// first, then by name; entries with equal keys keep their order.
pub fn file_list_order(nodes: &Vec<FileNode>) -> (order: Vec<usize>)
    ensures
        is_sorted_order(file_keys(nodes@), positions(order@), nodes@.len() as int),
{
    let mut keys: Vec<Vec<Vec<u64>>> = Vec::new();
    let mut i: usize = 0;
    while i < nodes.len()
        invariant
            i <= nodes@.len(),
            keys@.len() == i,
            forall|k: int| 0 <= k < i ==> key_view(#[trigger] keys@[k]) == file_key(nodes@[k]),
        decreases nodes.len() - i,
    {
        let flag: u64 = if nodes[i].is_dir {
            0
        } else {
            1
        };
        let a = vec![flag];
        let b = text_word(nodes[i].name.as_str());
        let key = vec![a, b];
        assert(key@[0]@ =~= seq![flag] && key@[1]@ == b@);
        assert(key_view(key) =~= file_key(nodes@[i as int]));
        keys.push(key);
        i = i + 1;
    }
    assert(keys_view(keys@) =~= file_keys(nodes@));
    sorted_order(&keys)
}

/// The page and page size that a clipboard list query asks for: page 1 at
/// least, 20 entries by default, between 1 and 100; and the entries it
/// skips.
pub open spec fn clipboard_paging_spec(page: Option<u64>, page_size: Option<u64>) -> (int, int, int) {
    let p: int = match page {
        Some(v) => if v < 1 {
            1
        } else {
            v as int
        },
        None => 1,
    };
    let s: int = match page_size {
        Some(v) => if v < 1 {
            1
        } else if v > 100 {
            100
        } else {
            v as int
        },
        None => 20,
    };
    (p, s, (p - 1) * s)
}

/// The page, page size and offset that a clipboard list query asks for.
pub fn clipboard_paging(page: Option<u64>, page_size: Option<u64>) -> (r: (u64, u64, u64))
    requires
        clipboard_paging_spec(page, page_size).2 <= u64::MAX,
    ensures
        r.0 == clipboard_paging_spec(page, page_size).0,
        r.1 == clipboard_paging_spec(page, page_size).1,
        r.2 == clipboard_paging_spec(page, page_size).2,
{
    let p: u64 = match page {
        Some(v) => if v < 1 {
            1
        } else {
            v
        },
        None => 1,
    };
    let s: u64 = match page_size {
        Some(v) => if v < 1 {
            1
        } else if v > 100 {
            100
        } else {
            v
        },
        None => 20,
    };
    (p, s, (p - 1) * s)
}

// ---------------------------------------------------------------------------
// Times
// ---------------------------------------------------------------------------

/// The UTC date and minute of a Unix timestamp (in seconds) as chrono writes
/// it with the pattern `%Y-%m-%d %H:%M`; `None` where chrono has no date for
/// the timestamp.
pub uninterp spec fn utc_minute_text(timestamp: i64) -> Option<Seq<char>>;

/// Formats a Unix timestamp with chrono's `DateTime::from_timestamp` and
/// `format("%Y-%m-%d %H:%M")`. The contract claims only that the result is a
/// function of the timestamp (`utc_minute_text`): `None` where chrono finds
/// the timestamp out of its range, else the text it writes.
#[verifier::external_body]
fn utc_minute(timestamp: i64) -> (r: Option<String>)
    ensures
        match r {
            Some(t) => utc_minute_text(timestamp) == Some(t@),
            None => utc_minute_text(timestamp) is None,
        },
{
    match chrono::DateTime::from_timestamp(timestamp, 0) {
        Some(value) => Some(value.format("%Y-%m-%d %H:%M").to_string()),
        None => None,
    }
}

/// The text of an optional timestamp in a listing: its UTC date and minute,
/// or `-` where there is none or chrono has no date for it.
pub open spec fn timestamp_text(timestamp: Option<i64>) -> Seq<char> {
    match timestamp {
        Some(v) => match utc_minute_text(v) {
            Some(t) => t,
            None => "-"@,
        },
        None => "-"@,
    }
}

/// The text of an optional timestamp in a listing.
pub fn format_timestamp(timestamp: Option<i64>) -> (r: String)
    ensures
        r@ == timestamp_text(timestamp),
{
    match timestamp {
        Some(v) => match utc_minute(v) {
            Some(t) => t,
            None => String::from_str("-"),
        },
        None => String::from_str("-"),
    }
}

// ---------------------------------------------------------------------------
// Whole pages
// ---------------------------------------------------------------------------

/// The start of every page, up to its title.
pub const PAGE_HEAD: &'static str = "<!doctype html>\n<html lang=\"zh-CN\">\n<meta charset=\"utf-8\">\n<meta name=\"viewport\" content=\"width=device-width, initial-scale=1\">\n<title>";

/// What follows the title of a file browsing page, up to its heading.
pub const SHELL_STYLE: &'static str = "</title>\n<style>\n  :root { color-scheme: light; font-family: \"Segoe UI\", system-ui, -apple-system, sans-serif; }\n  body { margin: 0; min-height: 100vh; background: #f6f8fb; color: #0f172a; }\n  main { box-sizing: border-box; width: min(900px, calc(100vw - 32px)); margin: 0 auto; padding: 42px 0; }\n  section { border: 1px solid #dbe3ee; border-radius: 10px; background: rgba(255,255,255,.9); box-shadow: 0 12px 32px rgba(15,23,42,.08); overflow: hidden; }\n  header { padding: 22px 26px 16px; border-bottom: 1px solid #e5ebf3; }\n  h1 { margin: 0 0 8px; font-size: 24px; line-height: 1.25; }\n  h2 { margin: 0 0 8px; font-size: 18px; }\n  p { margin: 0 0 14px; color: #475569; line-height: 1.7; }\n  .content { padding: 20px 26px 26px; }\n  .button { display: inline-block; border: 1px solid #bae6fd; border-radius: 8px; background: #f0f9ff; padding: 8px 11px; color: #0369a1; text-decoration: none; font-size: 14px; }\n  .crumb { display: inline-block; margin-left: 8px; color: #64748b; font-size: 13px; }\n  .table { border: 1px solid #e2e8f0; border-radius: 8px; overflow: hidden; background: #fff; }\n  .head, .row { display: grid; grid-template-columns: 32px minmax(0, 1fr) 78px 88px 140px; gap: 10px; align-items: center; padding: 10px 12px; }\n  .head { background: #f8fafc; color: #64748b; font-size: 12px; font-weight: 650; }\n  .row { border-top: 1px solid #e2e8f0; color: #0f172a; text-decoration: none; }\n  .row:hover { background: #f0f9ff; }\n  .name { min-width: 0; overflow: hidden; text-overflow: ellipsis; white-space: nowrap; font-weight: 600; }\n  .kind, .size, .time { color: #64748b; font-size: 13px; }\n  .empty { border: 1px dashed #cbd5e1; border-radius: 8px; padding: 18px; color: #64748b; background: #fff; }\n  .file-card { display: flex; gap: 16px; border: 1px solid #e2e8f0; border-radius: 8px; background: #fff; padding: 18px; }\n  .file-icon { font-size: 36px; }\n  @media (max-width: 640px) { .head, .row { grid-template-columns: 28px minmax(0, 1fr) 70px; } .size, .time { display: none; } }\n</style>\n<body>\n  <main>\n    <section>\n      <header>\n        <h1>";

/// What follows the heading of a file browsing page, up to its content.
pub const SHELL_AFTER_HEADING: &'static str = "</h1>\n        <p>Share Clip Web 文件浏览</p>\n      </header>\n      <div class=\"content\">";

/// The end of a file browsing page.
pub const SHELL_TAIL: &'static str = "</div>\n    </section>\n  </main>\n</body>\n</html>";

/// What follows the title of an error page, up to its heading.
pub const ERROR_STYLE: &'static str = "</title>\n<style>\n  body { margin: 0; min-height: 100vh; display: grid; place-items: center; background: #f6f8fb; color: #0f172a; font-family: \"Segoe UI\", system-ui, sans-serif; }\n  main { width: min(520px, calc(100vw - 32px)); border: 1px solid #dbe3ee; border-radius: 10px; background: white; padding: 26px; box-shadow: 0 12px 32px rgba(15,23,42,.08); }\n  h1 { margin: 0 0 10px; font-size: 22px; }\n  p { margin: 0; color: #475569; line-height: 1.7; }\n  a { color: #0369a1; text-decoration: none; }\n</style>\n<main><h1>";

/// What follows the heading of an error page, up to its message.
pub const ERROR_AFTER_HEADING: &'static str = "</h1><p>";

/// The end of an error page.
pub const ERROR_TAIL: &'static str = "</p></main>\n</html>";

/// A file browsing page: the title (escaped) in the page's title and
/// heading, the body as it is.
pub open spec fn page_shell_spec(title: Seq<char>, body: Seq<char>) -> Seq<char> {
    PAGE_HEAD@ + escaped_html(title) + SHELL_STYLE@ + escaped_html(title) + SHELL_AFTER_HEADING@
        + body + SHELL_TAIL@
}

/// A file browsing page around `body`.
pub fn page_shell(title: &str, body: &str) -> (r: String)
    ensures
        r@ == page_shell_spec(title@, body@),
{
    let t = escape_html(title);
    let mut out = String::from_str(PAGE_HEAD);
    out.append(t.as_str());
    out.append(SHELL_STYLE);
    out.append(t.as_str());
    out.append(SHELL_AFTER_HEADING);
    out.append(body);
    out.append(SHELL_TAIL);
    out
}

/// An error page: the title (escaped) in the page's title and heading, the
/// message (which may hold markup) as it is.
pub open spec fn error_page_spec(title: Seq<char>, message: Seq<char>) -> Seq<char> {
    PAGE_HEAD@ + escaped_html(title) + ERROR_STYLE@ + escaped_html(title) + ERROR_AFTER_HEADING@
        + message + ERROR_TAIL@
}

/// An error page with `title` and `message`.
pub fn error_page(title: &str, message: &str) -> (r: String)
    ensures
        r@ == error_page_spec(title@, message@),
{
    let t = escape_html(title);
    let mut out = String::from_str(PAGE_HEAD);
    out.append(t.as_str());
    out.append(ERROR_STYLE);
    out.append(t.as_str());
    out.append(ERROR_AFTER_HEADING);
    out.append(message);
    out.append(ERROR_TAIL);
    out
}

/// The rows of a directory listing: the link to the parent where the path
/// has one, then each entry in `order`, with its size text.
pub open spec fn directory_rows(
    id: Seq<char>,
    current_path: Seq<char>,
    nodes: Seq<FileNode>,
    sizes: Seq<Seq<char>>,
    order: Seq<int>,
) -> Seq<Seq<char>> {
    let entries = order.map_values(|i: int| entry_row_spec(id, nodes[i], sizes[i]));
    match parent_path_spec(current_path) {
        Some(p) => seq![parent_row_spec(id, p)] + entries,
        None => entries,
    }
}

/// The page of a shared directory: its entries in listing order (folders
/// first, then by lowercase name), each with the size text at its position
/// in `size_texts`, under the link to the parent directory.
pub fn directory_page(
    share_name: &str,
    id: &str,
    current_path: &str,
    nodes: &Vec<FileNode>,
    size_texts: &Vec<String>,
) -> (r: String)
    requires
        size_texts@.len() == nodes@.len(),
    ensures
        exists|order: Seq<int>|
            #[trigger] is_sorted_order(node_keys(nodes@), order, nodes@.len() as int) && r@
                == page_shell_spec(
                share_name@,
                listing_body_spec(
                    current_path@,
                    directory_rows(
                        id@,
                        current_path@,
                        nodes@,
                        size_texts@.map_values(|s: String| s@),
                        order,
                    ),
                ),
            ),
{
    let order = listing_order(nodes);
    let ghost po = positions(order@);
    let ghost sizes = size_texts@.map_values(|s: String| s@);
    let mut rows: Vec<String> = Vec::new();
    let ghost lead: Seq<Seq<char>> = match parent_path_spec(current_path@) {
        Some(p) => seq![parent_row_spec(id@, p)],
        None => Seq::empty(),
    };
    match parent_link(id, current_path) {
        Some(row) => {
            rows.push(row);
        },
        None => {},
    }
    assert(rows@.map_values(|s: String| s@) =~= lead);
    let mut k: usize = 0;
    while k < order.len()
        invariant
            k <= order@.len(),
            order@.len() == nodes@.len(),
            size_texts@.len() == nodes@.len(),
            po == positions(order@),
            is_sorted_order(node_keys(nodes@), po, nodes@.len() as int),
            sizes == size_texts@.map_values(|s: String| s@),
            rows@.map_values(|s: String| s@) == lead + po.take(k as int).map_values(
                |i: int| entry_row_spec(id@, nodes@[i], sizes[i]),
            ),
        decreases order.len() - k,
    {
        let i = order[k];
        assert(po[k as int] == i as int);
        let row = entry_row(id, &nodes[i], size_texts[i].as_str());
        let ghost before = rows@.map_values(|s: String| s@);
        rows.push(row);
        assert(po.take(k + 1) =~= po.take(k as int).push(i as int));
        assert(rows@.map_values(|s: String| s@) =~= before.push(
            entry_row_spec(id@, nodes@[i as int], sizes[i as int]),
        ));
        assert(lead + po.take(k + 1).map_values(|j: int| entry_row_spec(id@, nodes@[j], sizes[j]))
            =~= (lead + po.take(k as int).map_values(|j: int| entry_row_spec(id@, nodes@[j], sizes[j]))).push(
            entry_row_spec(id@, nodes@[i as int], sizes[i as int]),
        ));
        k = k + 1;
    }
    assert(po.take(order@.len() as int) =~= po);
    assert(rows@.map_values(|s: String| s@) =~= directory_rows(id@, current_path@, nodes@, sizes, po));
    let body = listing_body(current_path, &rows);
    page_shell(share_name, body.as_str())
}

/// The page of a shared file: its name, path and download link.
pub fn file_page(share_name: &str, id: &str, file_name: &str, current_path: &str) -> (r: String)
    ensures
        r@ == page_shell_spec(share_name@, file_card_spec(id@, file_name@, current_path@)),
{
    let body = file_card_body(id, file_name, current_path);
    page_shell(share_name, body.as_str())
}

/// Why a page of a share cannot be shown.
#[derive(Debug, Clone, Copy, PartialEq, Eq, Structural)]
pub enum ShareUnavailable {
    /// The share does not exist or is no longer shared.
    Missing,
    /// The path does not exist or lies outside the share.
    PathRefused,
    /// The share's root is gone.
    RootMissing,
    /// The directory cannot be read.
    Unreadable,
}

/// The title and body of the page for a share that cannot be shown.
pub open spec fn unavailable_parts(why: ShareUnavailable) -> (Seq<char>, Seq<char>) {
    match why {
        ShareUnavailable::Missing => ("共享不存在"@, "<p class=\"empty\">这个共享项不存在或已经停止共享。</p><p><a class=\"button\" href=\"/\">返回共享列表</a></p>"@),
        ShareUnavailable::PathRefused => ("路径不可访问"@, "<p class=\"empty\">路径不存在或不允许访问。</p><p><a class=\"button\" href=\"/\">返回共享列表</a></p>"@),
        ShareUnavailable::RootMissing => ("共享不可访问"@, "<p class=\"empty\">共享根目录不存在。</p><p><a class=\"button\" href=\"/\">返回共享列表</a></p>"@),
        ShareUnavailable::Unreadable => ("目录不可读"@, "<p class=\"empty\">无法读取当前目录。</p><p><a class=\"button\" href=\"/\">返回共享列表</a></p>"@),
    }
}

impl ShareUnavailable {
    /// The page shown instead of the share.
    pub fn page(&self) -> (r: String)
        ensures
            r@ == page_shell_spec(unavailable_parts(*self).0, unavailable_parts(*self).1),
    {
        match self {
            ShareUnavailable::Missing => page_shell("共享不存在", "<p class=\"empty\">这个共享项不存在或已经停止共享。</p><p><a class=\"button\" href=\"/\">返回共享列表</a></p>"),
            ShareUnavailable::PathRefused => page_shell("路径不可访问", "<p class=\"empty\">路径不存在或不允许访问。</p><p><a class=\"button\" href=\"/\">返回共享列表</a></p>"),
            ShareUnavailable::RootMissing => page_shell("共享不可访问", "<p class=\"empty\">共享根目录不存在。</p><p><a class=\"button\" href=\"/\">返回共享列表</a></p>"),
            ShareUnavailable::Unreadable => page_shell("目录不可读", "<p class=\"empty\">无法读取当前目录。</p><p><a class=\"button\" href=\"/\">返回共享列表</a></p>"),
        }
    }
}

// ---------------------------------------------------------------------------
// The server's start page
// ---------------------------------------------------------------------------

/// The start of the server's start page, up to the number of shares.
pub const START_HEAD: &'static str = "<!doctype html>\n<html lang=\"zh-CN\">\n<meta charset=\"utf-8\">\n<meta name=\"viewport\" content=\"width=device-width, initial-scale=1\">\n<title>Share Clip 共享服务</title>\n<style>\n  :root { color-scheme: light; font-family: \"Segoe UI\", system-ui, -apple-system, sans-serif; }\n  body { margin: 0; min-height: 100vh; background: #f6f8fb; color: #0f172a; }\n  main { box-sizing: border-box; width: min(760px, calc(100vw - 32px)); margin: 0 auto; padding: 48px 0; }\n  section { border: 1px solid #dbe3ee; border-radius: 10px; background: rgba(255,255,255,.86); box-shadow: 0 12px 32px rgba(15,23,42,.08); overflow: hidden; }\n  header { padding: 24px 28px 18px; border-bottom: 1px solid #e5ebf3; }\n  h1 { margin: 0 0 8px; font-size: 24px; line-height: 1.25; }\n  h2 { margin: 22px 0 10px; font-size: 16px; }\n  p { margin: 0; color: #475569; line-height: 1.7; }\n  .content { padding: 22px 28px 26px; }\n  .grid { display: grid; grid-template-columns: repeat(auto-fit, minmax(160px, 1fr)); gap: 10px; margin-bottom: 18px; }\n  .metric { border: 1px solid #e2e8f0; border-radius: 8px; background: #fff; padding: 12px; }\n  .label { font-size: 12px; color: #64748b; }\n  .value { margin-top: 4px; font-size: 16px; font-weight: 650; }\n  .links { display: flex; flex-wrap: wrap; gap: 10px; margin: 18px 0; }\n  a { color: #0369a1; text-decoration: none; }\n  a.button { border: 1px solid #bae6fd; border-radius: 8px; background: #f0f9ff; padding: 9px 12px; font-size: 14px; }\n  .table { border: 1px solid #e2e8f0; border-radius: 8px; overflow: hidden; background: #fff; }\n  .head, .row { display: grid; grid-template-columns: 32px minmax(0, 1fr) 78px 88px 140px; gap: 10px; align-items: center; padding: 10px 12px; }\n  .head { background: #f8fafc; color: #64748b; font-size: 12px; font-weight: 650; }\n  .row { border-top: 1px solid #e2e8f0; color: #0f172a; }\n  .row:hover { background: #f0f9ff; }\n  .name { min-width: 0; overflow: hidden; text-overflow: ellipsis; white-space: nowrap; font-weight: 600; }\n  .kind, .size, .time { color: #64748b; font-size: 13px; }\n  .empty { border: 1px dashed #cbd5e1; border-radius: 8px; padding: 18px; color: #64748b; background: #fff; }\n  code { border-radius: 6px; background: #eef2f7; padding: 2px 6px; font-size: 13px; }\n  .notice { border-left: 3px solid #f59e0b; background: #fffbeb; padding: 11px 13px; color: #78350f; font-size: 14px; line-height: 1.65; }\n  @media (max-width: 640px) { .head, .row { grid-template-columns: 28px minmax(0, 1fr) 70px; } .size, .time { display: none; } }\n</style>\n<body>\n  <main>\n    <section>\n      <header>\n        <h1>Share Clip 共享服务正在运行</h1>\n        <p>这表示当前设备正在对局域网开放共享服务。你可以在应用的“文件共享”和“设备连接”页面管理共享内容与授权。</p>\n      </header>\n      <div class=\"content\">\n        <div class=\"grid\">\n          <div class=\"metric\"><div class=\"label\">共享项</div><div class=\"value\">";

/// What follows the number of shares, up to the browser access status.
pub const START_AFTER_COUNT: &'static str = "</div></div>\n          <div class=\"metric\"><div class=\"label\">浏览器访问</div><div class=\"value\">";

/// What follows the browser access status, up to the client sync status.
pub const START_AFTER_BROWSER: &'static str = "</div></div>\n          <div class=\"metric\"><div class=\"label\">客户端同步</div><div class=\"value\">";

/// What follows the client sync status, up to the connection approval mode.
pub const START_AFTER_SYNC: &'static str = "</div></div>\n          <div class=\"metric\"><div class=\"label\">连接授权</div><div class=\"value\">";

/// What follows the connection approval mode, up to the web password status.
pub const START_AFTER_AUTH: &'static str = "</div></div>\n          <div class=\"metric\"><div class=\"label\">Web 访问密码</div><div class=\"value\">";

/// What follows the web password status, up to the rows of shares.
pub const START_AFTER_PASSWORD: &'static str = "</div></div>\n        </div>\n        <h2>可访问的共享</h2>\n        <div class=\"table\">\n          <div class=\"head\"><span></span><span>名称</span><span>类型</span><span>大小</span><span>更新时间</span></div>\n          ";

/// The end of the start page.
pub const START_TAIL: &'static str = "\n        </div>\n        <div class=\"links\">\n          <a class=\"button\" href=\"/health\">服务健康检查</a>\n          <a class=\"button\" href=\"/api/shares\">JSON API</a>\n          <a class=\"button\" href=\"/clipboard/1\">剪切板网页</a>\n          <a class=\"button\" href=\"/api/clipboard/list?page=1&page_size=20\">剪切板 API</a>\n        </div>\n        <p class=\"notice\">安全提醒：请只在可信网络中开放共享服务。若需要给其他设备访问，建议启用访问密码，并保持“连接授权”为需要确认。</p>\n      </div>\n    </section>\n  </main>\n</body>\n</html>";

/// What the start page shows where nothing is shared.
pub const NO_SHARES: &'static str = "<div class=\"empty\">暂无共享项。可以在 Share Clip 的“文件共享”窗口拖入文件或文件夹。</div>";

/// The server's start page: how many shares there are, the access
/// settings, and the rows of the shares (a note where there is none).
pub open spec fn start_page_spec(c: AppConfig, share_rows: Seq<Seq<char>>) -> Seq<char> {
    let labels = status_labels_spec(c);
    let rows = if share_rows.len() == 0 {
        NO_SHARES@
    } else {
        concat_all(share_rows)
    };
    START_HEAD@ + nat_text(share_rows.len()) + START_AFTER_COUNT@ + labels.0 + START_AFTER_BROWSER@
        + labels.1 + START_AFTER_SYNC@ + labels.2 + START_AFTER_AUTH@ + labels.3
        + START_AFTER_PASSWORD@ + rows + START_TAIL@
}

/// The server's start page, given the rows of the shares.
pub fn start_page(c: &AppConfig, share_rows: &Vec<String>) -> (r: String)
    ensures
        r@ == start_page_spec(*c, share_rows@.map_values(|s: String| s@)),
{
    let labels = status_labels(c);
    let mut out = String::from_str(START_HEAD);
    let count = string_of(&u64_text(share_rows.len() as u64));
    out.append(count.as_str());
    out.append(START_AFTER_COUNT);
    out.append(labels.0);
    out.append(START_AFTER_BROWSER);
    out.append(labels.1);
    out.append(START_AFTER_SYNC);
    out.append(labels.2);
    out.append(START_AFTER_AUTH);
    out.append(labels.3);
    out.append(START_AFTER_PASSWORD);
    let ghost views = share_rows@.map_values(|s: String| s@);
    if share_rows.len() == 0 {
        out.append(NO_SHARES);
    } else {
        let ghost start = out@;
        let mut i: usize = 0;
        while i < share_rows.len()
            invariant
                i <= share_rows@.len(),
                views == share_rows@.map_values(|s: String| s@),
                out@ == start + concat_all(views.take(i as int)),
            decreases share_rows.len() - i,
        {
            out.append(share_rows[i].as_str());
            assert(views.take(i + 1).drop_last() =~= views.take(i as int));
            assert(views.take(i + 1).last() == share_rows@[i as int]@);
            i = i + 1;
        }
        assert(views.take(share_rows.len() as int) =~= views);
    }
    out.append(START_TAIL);
    out
}

} // verus!
