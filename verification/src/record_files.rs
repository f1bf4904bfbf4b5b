use vstd::prelude::*;

use crate::clipboard_formats::{legacy_format_name, legacy_format_name_of, opt_view};
use crate::models::{
    clipboard_type_code, AppError, ClipboardFileItem, ClipboardRecord, ClipboardResponse,
    ClipboardType,
};
use crate::paths::{
    cur_part, normalize_file_uri, normalized_file_uri, parent_part, path_components,
    path_components_of, root_part,
};
use crate::text::strs::{
    chars_eq, chars_of, find_last, join_chars, join_with, last_index, lower_ascii,
    lower_ascii_chars, push_all, replace_char, replace_chars, split_chars, split_on, starts_with,
    string_from_utf8, string_of, sub_chars, trim_end_chars, trim_end_in, trim_ws, trim_ws_chars,
    utf8_error_text, views, CharSet,
};
use vstd::utf8::{decode_utf8, valid_utf8};

verus! {

broadcast use vstd::string::group_string_axioms;

// ---------------------------------------------------------------------------
// File names and extensions
// ---------------------------------------------------------------------------

/// The final component of a path, where it is a name (`Path::file_name`).
pub open spec fn file_name_of(p: Seq<char>) -> Option<Seq<char>> {
    let c = path_components(p);
    if c.len() == 0 {
        None
    } else if c.last() == root_part() || c.last() == cur_part() || c.last() == parent_part() {
        None
    } else {
        Some(c.last())
    }
}

fn is_special_part(s: &Vec<char>) -> (r: bool)
    ensures
        r == (s@ == root_part() || s@ == cur_part() || s@ == parent_part()),
{
    let r = (s.len() == 1 && (s[0] == '/' || s[0] == '.')) || (s.len() == 2 && s[0] == '.' && s[1]
        == '.');
    proof {
        if s.len() == 1 && s[0] == '/' {
            assert(s@ =~= root_part());
        }
        if s.len() == 1 && s[0] == '.' {
            assert(s@ =~= cur_part());
        }
        if s.len() == 2 && s[0] == '.' && s[1] == '.' {
            assert(s@ =~= parent_part());
        }
    }
    r
}

/// The final component of a path, where it is a name.
pub fn file_name(path: &str) -> (r: Option<String>)
    ensures
        match r {
            Some(n) => file_name_of(path@) == Some(n@),
            None => file_name_of(path@) is None,
        },
{
    let comps = path_components_of(&chars_of(path));
    if comps.len() == 0 {
        return None;
    }
    let last = &comps[comps.len() - 1];
    assert(views(comps@).last() == last@);
    if is_special_part(last) {
        None
    } else {
        Some(string_of(last))
    }
}

/// The extension of a path's file name: what follows its last `.`, where
/// that `.` is not the name's first character (`Path::extension`).
pub open spec fn extension_of_path(p: Seq<char>) -> Option<Seq<char>> {
    match file_name_of(p) {
        None => None,
        Some(n) => if last_index(n, '.') <= 0 {
            None
        } else {
            Some(n.skip(last_index(n, '.') + 1))
        },
    }
}

/// The extensions, in lowercase, of the image files a clipboard record can
/// share.
pub open spec fn image_extensions() -> Seq<Seq<char>> {
    seq![
        "png"@,
        "jpg"@,
        "jpeg"@,
        "gif"@,
        "bmp"@,
        "webp"@,
        "tif"@,
        "tiff"@,
        "ico"@,
        "heic"@,
        "avif"@,
        "svg"@,
    ]
}

/// Whether a path names an image file, by its extension in any case.
pub open spec fn is_image_path_spec(p: Seq<char>) -> bool {
    match extension_of_path(p) {
        Some(e) => image_extensions().contains(lower_ascii(e)),
        None => false,
    }
}

/// Whether a path's extension, in lowercase, is one of `names`.
fn extension_listed(path: &str, names: &[&str]) -> (r: bool)
    ensures
        r == match extension_of_path(path@) {
            Some(e) => names@.map_values(|s: &str| s@).contains(lower_ascii(e)),
            None => false,
        },
{
    let name_s = match file_name(path) {
        Some(n) => n,
        None => {
            return false;
        },
    };
    let name = chars_of(name_s.as_str());
    let dot = match find_last(&name, '.') {
        Some(i) => i,
        None => {
            return false;
        },
    };
    if dot == 0 {
        return false;
    }
    let ext = lower_ascii_chars(&sub_chars(&name, dot + 1, name.len()));
    assert(ext@ =~= lower_ascii(name@.skip(dot + 1)));
    let ghost listed = names@.map_values(|s: &str| s@);
    let mut i: usize = 0;
    while i < names.len()
        invariant
            i <= names@.len(),
            listed == names@.map_values(|s: &str| s@),
            forall|k: int| 0 <= k < i ==> listed[k] != ext@,
            file_name_of(path@) == Some(name@),
            dot as int == last_index(name@, '.'),
            dot > 0,
            ext@ == lower_ascii(name@.skip(dot + 1)),
        decreases names.len() - i,
    {
        assert(listed[i as int] == names@[i as int]@);
        if chars_eq(&ext, &chars_of(names[i])) {
            assert(listed[i as int] == ext@);
            assert(listed.contains(ext@));
            assert(extension_of_path(path@) == Some(name@.skip(dot + 1)));
            return true;
        }
        i = i + 1;
    }
    assert(!listed.contains(ext@)) by {
        if listed.contains(ext@) {
            let k = choose|k: int| 0 <= k < listed.len() && listed[k] == ext@;
            assert(listed[k] != ext@);
        }
    }
    false
}

/// Whether a path names an image file, by its extension.
pub fn is_image_path(path: &str) -> (r: bool)
    ensures
        r == is_image_path_spec(path@),
{
    let names = ["png", "jpg", "jpeg", "gif", "bmp", "webp", "tif", "tiff", "ico", "heic", "avif", "svg"];
    assert(names@.map_values(|s: &str| s@) =~= image_extensions());
    extension_listed(path, &names)
}

/// The extensions, in lowercase, of the image files that a path shared by
/// hand is listed as.
pub open spec fn manual_image_extensions() -> Seq<Seq<char>> {
    seq!["png"@, "jpg"@, "jpeg"@, "gif"@, "webp"@, "bmp"@, "svg"@]
}

/// The kind of a path shared by hand: a folder, an image by its extension,
/// else a file.
pub open spec fn manual_file_type_spec(path: Seq<char>, is_dir: bool) -> i32 {
    if is_dir {
        1
    } else if match extension_of_path(path) {
        Some(e) => manual_image_extensions().contains(lower_ascii(e)),
        None => false,
    } {
        2
    } else {
        0
    }
}

/// The kind of a path shared by hand.
pub fn manual_file_type(path: &str, is_dir: bool) -> (r: i32)
    ensures
        r == manual_file_type_spec(path@, is_dir),
{
    if is_dir {
        return 1;
    }
    let names = ["png", "jpg", "jpeg", "gif", "webp", "bmp", "svg"];
    assert(names@.map_values(|s: &str| s@) =~= manual_image_extensions());
    if extension_listed(path, &names) {
        2
    } else {
        0
    }
}

/// A path as the user hands it in to share: trimmed, without surrounding
/// quotes, without `file://`.
pub open spec fn manual_share_path_spec(raw: Seq<char>) -> Seq<char> {
    normalized_file_uri(crate::text::strs::trim_in(trim_ws(raw), CharSet::One('"')))
}

/// A path as the user hands it in to share, made local.
pub fn manual_share_path(raw: &str) -> (r: String)
    ensures
        r@ == manual_share_path_spec(raw@),
{
    let t = crate::text::strs::trim_chars(&trim_ws_chars(&chars_of(raw)), CharSet::One('"'));
    let s = string_of(&t);
    normalize_file_uri(s.as_str()).to_owned()
}

/// The kind of shared entry that a clipboard record's path makes: a folder
/// where the record is a folder record or the path is a directory, an image
/// for an image record, else a file.
pub open spec fn local_file_type_spec(clipboard_type: i32, is_dir: bool) -> i32 {
    if clipboard_type == clipboard_type_code(ClipboardType::Folder) || is_dir {
        1
    } else if clipboard_type == clipboard_type_code(ClipboardType::Image) {
        2
    } else {
        0
    }
}

/// The kind of shared entry that a clipboard record's path makes.
pub fn local_file_type_from_clipboard_type(clipboard_type: i32, is_dir: bool) -> (r: i32)
    ensures
        r == local_file_type_spec(clipboard_type, is_dir),
{
    if clipboard_type == ClipboardType::Folder.code() || is_dir {
        return 1;
    }
    if clipboard_type == ClipboardType::Image.code() {
        return 2;
    }
    0
}

// ---------------------------------------------------------------------------
// Comparing paths as text
// ---------------------------------------------------------------------------

/// The Windows prefix of a UNC path in extended form (`\\?\UNC\`).
pub open spec fn unc_prefix() -> Seq<char> {
    seq!['\\', '\\', '?', '\\', 'U', 'N', 'C', '\\']
}

/// The Windows prefix of a path in extended form (`\\?\`).
pub open spec fn verbatim_prefix() -> Seq<char> {
    seq!['\\', '\\', '?', '\\']
}

/// A path text in the form paths are compared in: without `file://`, with
/// `\\` as separator, without the extended-form prefix, without trailing
/// separators, ASCII letters in lowercase.
pub open spec fn path_compare_form(path: Seq<char>) -> Seq<char> {
    let p = replace_char(normalized_file_uri(path), '/', '\\');
    let q = if unc_prefix().is_prefix_of(p) {
        seq!['\\', '\\'] + p.skip(8)
    } else if verbatim_prefix().is_prefix_of(p) {
        p.skip(4)
    } else {
        p
    };
    lower_ascii(trim_end_in(q, CharSet::One('\\')))
}

/// A path text in the form paths are compared in.
pub fn normalize_for_path_compare(path: &str) -> (r: String)
    ensures
        r@ == path_compare_form(path@),
{
    let p = replace_chars(&chars_of(normalize_file_uri(path)), '/', '\\');
    let unc = vec!['\\', '\\', '?', '\\', 'U', 'N', 'C', '\\'];
    let verbatim = vec!['\\', '\\', '?', '\\'];
    assert(unc@ =~= unc_prefix());
    assert(verbatim@ =~= verbatim_prefix());
    let q: Vec<char> = if starts_with(&p, &unc) {
        let mut out = vec!['\\', '\\'];
        let rest = sub_chars(&p, 8, p.len());
        push_all(&mut out, &rest);
        assert(out@ =~= seq!['\\', '\\'] + p@.skip(8));
        out
    } else if starts_with(&p, &verbatim) {
        let rest = sub_chars(&p, 4, p.len());
        assert(rest@ =~= p@.skip(4));
        rest
    } else {
        p
    };
    string_of(&lower_ascii_chars(&trim_end_chars(&q, CharSet::One('\\'))))
}

/// Whether two path texts name the same entry, or one lies inside the other.
pub open spec fn path_text_matches_spec(path: Seq<char>, changed_path: Seq<char>) -> bool {
    let a = path_compare_form(path);
    let b = path_compare_form(changed_path);
    a == b || (a + seq!['\\']).is_prefix_of(b) || (b + seq!['\\']).is_prefix_of(a)
}

/// Whether two path texts name the same entry, or one lies inside the other.
pub fn path_text_matches(path: &str, changed_path: &str) -> (r: bool)
    ensures
        r == path_text_matches_spec(path@, changed_path@),
{
    let a = chars_of(normalize_for_path_compare(path).as_str());
    let b = chars_of(normalize_for_path_compare(changed_path).as_str());
    if chars_eq(&a, &b) {
        return true;
    }
    let mut a_sep = a.clone();
    a_sep.push('\\');
    let mut b_sep = b.clone();
    b_sep.push('\\');
    assert(a_sep@ =~= a@ + seq!['\\']);
    assert(b_sep@ =~= b@ + seq!['\\']);
    starts_with(&b, &a_sep) || starts_with(&a, &b_sep)
}

/// Whether one path lies in the other or both name the same place, by
/// components (`Path` equality and `Path::starts_with`).
pub open spec fn paths_nested(path: Seq<char>, changed: Seq<char>) -> bool {
    path_components(path) == path_components(changed) || crate::paths::path_starts_with_spec(
        changed,
        path,
    ) || crate::paths::path_starts_with_spec(path, changed)
}

/// Whether a change at `changed` (also read as `normalized_changed`, its
/// form without a file URI scheme) concerns a record's file at `path`: by
/// components, or by the comparison form of their texts.
pub open spec fn affected_by_change_spec(
    path: Seq<char>,
    changed: Seq<char>,
    normalized_changed: Seq<char>,
) -> bool {
    paths_nested(path, changed) || paths_nested(path, normalized_changed)
        || path_text_matches_spec(path, changed) || path_text_matches_spec(path, normalized_changed)
}

/// Whether a change on disk concerns a record's file.
pub fn path_affected_by_change(path: &str, changed: &str, normalized_changed: &str) -> (r: bool)
    ensures
        r == affected_by_change_spec(path@, changed@, normalized_changed@),
{
    let pc = path_components_of(&chars_of(path));
    let nested = |other: &str| -> (b: bool)
        ensures
            b == paths_nested(path@, other@),
        {
            let oc = path_components_of(&chars_of(other));
            same_component_list(&pc, &oc) || crate::paths::path_starts_with(other, path)
                || crate::paths::path_starts_with(path, other)
        };
    nested(changed) || nested(normalized_changed) || path_text_matches(path, changed)
        || path_text_matches(path, normalized_changed)
}

fn same_component_list(a: &Vec<Vec<char>>, b: &Vec<Vec<char>>) -> (r: bool)
    ensures
        r == (views(a@) == views(b@)),
{
    if a.len() != b.len() {
        assert(views(a@).len() != views(b@).len());
        return false;
    }
    let mut i: usize = 0;
    while i < a.len()
        invariant
            a@.len() == b@.len(),
            i <= a@.len(),
            forall|k: int| 0 <= k < i ==> a@[k]@ == b@[k]@,
        decreases a.len() - i,
    {
        if !chars_eq(&a[i], &b[i]) {
            assert(views(a@)[i as int] != views(b@)[i as int]);
            return false;
        }
        i = i + 1;
    }
    assert(views(a@) =~= views(b@));
    true
}

/// The SQLite connection address of a database file.
pub open spec fn sqlite_url_spec(path: Seq<char>) -> Seq<char> {
    "sqlite://"@ + replace_char(path, '\\', '/') + "?mode=rwc"@
}

/// The SQLite connection address of a database file, created where missing.
pub fn sqlite_url(path: &str) -> (r: String)
    ensures
        r@ == sqlite_url_spec(path@),
{
    let mut out = String::from_str("sqlite://");
    let p = string_of(&replace_chars(&chars_of(path), '\\', '/'));
    out.append(p.as_str());
    out.append("?mode=rwc");
    out
}

// ---------------------------------------------------------------------------
// The paths a clipboard record holds
// ---------------------------------------------------------------------------

/// The list of texts that `serde_json::from_slice::<Vec<String>>` reads from
/// bytes, or the message of its error.
pub uninterp spec fn json_string_list(bytes: Seq<u8>) -> Result<Seq<Seq<char>>, Seq<char>>;

/// Reads a JSON array of strings with `serde_json::from_slice::<Vec<String>>`,
/// with the error's `Display` text on failure. The contract claims only that
/// the outcome is a function of the bytes (`json_string_list`).
#[verifier::external_body]
fn parse_json_string_list(bytes: &[u8]) -> (r: Result<Vec<String>, String>)
    ensures
        match r {
            Ok(v) => json_string_list(bytes@) == Ok::<Seq<Seq<char>>, Seq<char>>(
                v@.map_values(|s: String| s@),
            ),
            Err(m) => json_string_list(bytes@) == Err::<Seq<Seq<char>>, Seq<char>>(m@),
        },
{
    serde_json::from_slice::<Vec<String>>(bytes).map_err(|e| e.to_string())
}

/// Each path without `file://`.
pub open spec fn local_paths(paths: Seq<Seq<char>>) -> Seq<Seq<char>> {
    paths.map_values(|p: Seq<char>| normalized_file_uri(p))
}

fn normalize_all(paths: &Vec<String>) -> (r: Vec<String>)
    ensures
        r@.map_values(|s: String| s@) == local_paths(paths@.map_values(|s: String| s@)),
{
    let mut out: Vec<String> = Vec::new();
    let mut i: usize = 0;
    while i < paths.len()
        invariant
            i <= paths.len(),
            out@.map_values(|s: String| s@) == local_paths(paths@.map_values(|s: String| s@)).take(
                i as int,
            ),
        decreases paths.len() - i,
    {
        let ghost before = out@.map_values(|s: String| s@);
        let p = normalize_file_uri(paths[i].as_str()).to_owned();
        out.push(p);
        assert(out@.map_values(|s: String| s@) =~= before.push(p@));
        assert(local_paths(paths@.map_values(|s: String| s@)).take(i + 1) =~= local_paths(
            paths@.map_values(|s: String| s@),
        ).take(i as int).push(normalized_file_uri(paths@[i as int]@)));
        i = i + 1;
    }
    assert(local_paths(paths@.map_values(|s: String| s@)).take(paths.len() as int) =~= local_paths(
        paths@.map_values(|s: String| s@),
    ));
    out
}

/// Whether a record kind stores a list of files.
pub open spec fn is_file_list_kind(kind: i32) -> bool {
    kind == clipboard_type_code(ClipboardType::File) || kind == clipboard_type_code(
        ClipboardType::Folder,
    )
}

/// The local paths that a file or folder record lists, where its data reads
/// as a JSON list of texts.
pub open spec fn record_file_paths_spec(kind: i32, data: Option<Seq<u8>>) -> Option<Seq<Seq<char>>> {
    if !is_file_list_kind(kind) {
        None
    } else {
        match data {
            None => None,
            Some(bytes) => match json_string_list(bytes) {
                Ok(paths) => Some(local_paths(paths)),
                Err(_) => None,
            },
        }
    }
}

/// The local paths that a file or folder record lists.
pub fn record_file_paths(record: &ClipboardRecord) -> (r: Option<Vec<String>>)
    ensures
        match r {
            Some(v) => record_file_paths_spec(
                record.kind,
                crate::clipboard_formats::opt_bytes(record.data),
            ) == Some(v@.map_values(|s: String| s@)),
            None => record_file_paths_spec(
                record.kind,
                crate::clipboard_formats::opt_bytes(record.data),
            ) is None,
        },
{
    if record.kind != ClipboardType::File.code() && record.kind != ClipboardType::Folder.code() {
        return None;
    }
    match &record.data {
        None => None,
        Some(bytes) => match parse_json_string_list(bytes.as_slice()) {
            Ok(paths) => Some(normalize_all(&paths)),
            Err(_) => None,
        },
    }
}

/// The paths a record puts on disk, or the error that stops it: a file or
/// folder record's list, an image record's one path, none for other kinds.
pub open spec fn record_paths_spec(kind: i32, data: Option<Seq<u8>>) -> Result<
    Seq<Seq<char>>,
    AppErrorView,
> {
    if is_file_list_kind(kind) {
        match data {
            None => Err(AppErrorView::InvalidInput("clipboard file data is empty"@)),
            Some(bytes) => match json_string_list(bytes) {
                Ok(paths) => Ok(local_paths(paths)),
                Err(m) => Err(AppErrorView::Json(m)),
            },
        }
    } else if kind == clipboard_type_code(ClipboardType::Image) {
        match data {
            None => Err(AppErrorView::InvalidInput("clipboard image data is empty"@)),
            Some(bytes) => if valid_utf8(bytes) {
                Ok(seq![normalized_file_uri(decode_utf8(bytes))])
            } else {
                Err(AppErrorView::InvalidInput("无效的 UTF-8 数据: "@ + utf8_error_text(bytes)))
            },
        }
    } else {
        Ok(Seq::empty())
    }
}

/// The kind and message of an error.
pub enum AppErrorView {
    InvalidInput(Seq<char>),
    Json(Seq<char>),
    Other,
}

pub open spec fn app_error_view(e: AppError) -> AppErrorView {
    match e {
        AppError::InvalidInput(m) => AppErrorView::InvalidInput(m@),
        AppError::Json(m) => AppErrorView::Json(m@),
        _ => AppErrorView::Other,
    }
}

/// The paths a record puts on disk.
pub fn extract_paths_from_clipboard_record(record: &ClipboardRecord) -> (r: Result<
    Vec<String>,
    AppError,
>)
    ensures
        match r {
            Ok(v) => record_paths_spec(record.kind, crate::clipboard_formats::opt_bytes(record.data))
                == Ok::<Seq<Seq<char>>, AppErrorView>(v@.map_values(|s: String| s@)),
            Err(e) => record_paths_spec(
                record.kind,
                crate::clipboard_formats::opt_bytes(record.data),
            ) == Err::<Seq<Seq<char>>, AppErrorView>(app_error_view(e)),
        },
{
    if record.kind == ClipboardType::File.code() || record.kind == ClipboardType::Folder.code() {
        let bytes = match &record.data {
            Some(b) => b,
            None => {
                return Err(AppError::InvalidInput(String::from_str("clipboard file data is empty")));
            },
        };
        return match parse_json_string_list(bytes.as_slice()) {
            Ok(paths) => Ok(normalize_all(&paths)),
            Err(m) => Err(AppError::Json(m)),
        };
    }
    if record.kind == ClipboardType::Image.code() {
        let bytes = match &record.data {
            Some(b) => b.clone(),
            None => {
                return Err(
                    AppError::InvalidInput(String::from_str("clipboard image data is empty")),
                );
            },
        };
        assert(bytes@ == record.data.unwrap()@);
        return match string_from_utf8(bytes) {
            Ok(path) => {
                let p = normalize_file_uri(path.as_str()).to_owned();
                let v = vec![p];
                assert(v@.map_values(|s: String| s@) =~= seq![p@]);
                Ok(v)
            },
            Err(m) => Err(crate::models::invalid_utf8_error(m.as_str())),
        };
    }
    let v: Vec<String> = Vec::new();
    assert(v@.map_values(|s: String| s@) =~= Seq::<Seq<char>>::empty());
    Ok(v)
}

/// One file of a file record as the user interface shows it: named after
/// the resolved path's file name (the local path where it has none), a
/// folder, image or file by what is on disk and the extension.
pub fn clipboard_file_item(
    local_path: &str,
    resolved_path: &str,
    exists: bool,
    is_dir: bool,
    size: Option<i64>,
) -> (r: ClipboardFileItem)
    ensures
        r.name@ == match file_name_of(resolved_path@) {
            Some(n) => n,
            None => local_path@,
        },
        r.path@ == resolved_path@,
        r.kind == if is_dir {
            1i32
        } else if is_image_path_spec(resolved_path@) {
            2i32
        } else {
            0i32
        },
        r.is_dir == is_dir,
        r.size == size,
        r.exists == exists,
{
    let name = match file_name(resolved_path) {
        Some(n) => n,
        None => local_path.to_owned(),
    };
    let kind: i32 = if is_dir {
        1
    } else if is_image_path(resolved_path) {
        2
    } else {
        0
    };
    ClipboardFileItem { name, path: resolved_path.to_owned(), kind, is_dir, size, exists }
}

/// A stored record as the user interface shows it, with the files that were
/// looked up for it and the one format name that its kind has.
pub fn clipboard_response_from_model(
    record: ClipboardRecord,
    file_items: Option<Vec<ClipboardFileItem>>,
) -> (r: ClipboardResponse)
    ensures
        r.id == record.id,
        r.kind == record.kind,
        r.preview == record.preview,
        r.hash == record.hash,
        r.size == record.size,
        r.source_app == record.source_app,
        r.created_at == record.created_at,
        r.last_accessed_at == record.last_accessed_at,
        r.access_count == record.access_count,
        r.is_favorite == record.is_favorite,
        r.is_shared == record.is_shared,
        r.is_valid == record.is_valid,
        r.file_items == file_items,
        r.available_formats@.map_values(|s: String| s@) == match legacy_format_name_of(
            record.kind,
        ) {
            Some(n) => seq![n],
            None => Seq::empty(),
        },
{
    let mut formats: Vec<String> = Vec::new();
    match legacy_format_name(record.kind) {
        Some(n) => {
            formats.push(n);
        },
        None => {},
    }
    assert(formats@.map_values(|s: String| s@) =~= match legacy_format_name_of(record.kind) {
        Some(n) => seq![n],
        None => Seq::<Seq<char>>::empty(),
    });
    ClipboardResponse {
        id: record.id,
        kind: record.kind,
        preview: record.preview,
        hash: record.hash,
        size: record.size,
        source_app: record.source_app,
        created_at: record.created_at,
        last_accessed_at: record.last_accessed_at,
        access_count: record.access_count,
        is_favorite: record.is_favorite,
        is_shared: record.is_shared,
        is_valid: record.is_valid,
        file_items,
        available_formats: formats,
    }
}

// ---------------------------------------------------------------------------
// Text previews
// ---------------------------------------------------------------------------

/// The first three lines of a text, each without a trailing carriage return.
pub open spec fn preview_lines(text: Seq<char>) -> Seq<Seq<char>> {
    let parts = split_on(text, '\n');
    let n = if parts.len() < 3 {
        parts.len() as int
    } else {
        3
    };
    parts.take(n).map_values(|l: Seq<char>| trim_end_in(l, CharSet::One('\r')))
}

/// The preview of a text: its first three lines, cut to 100 characters;
/// none where they are blank.
pub open spec fn preview_spec(text: Seq<char>) -> Option<Seq<char>> {
    let preview = join_with(preview_lines(text), seq!['\n']);
    if trim_ws(preview).len() == 0 {
        None
    } else {
        Some(preview.take(if preview.len() < 100 { preview.len() as int } else { 100 }))
    }
}

/// The preview of a text.
pub fn preview_from_plain_text(text: &str) -> (r: Option<String>)
    ensures
        match r {
            Some(p) => preview_spec(text@) == Some(p@),
            None => preview_spec(text@) is None,
        },
{
    let parts = split_chars(&chars_of(text), '\n');
    let n: usize = if parts.len() < 3 {
        parts.len()
    } else {
        3
    };
    let mut lines: Vec<Vec<char>> = Vec::new();
    let mut i: usize = 0;
    while i < n
        invariant
            i <= n <= parts.len(),
            n == if views(parts@).len() < 3 {
                views(parts@).len() as int
            } else {
                3
            },
            views(parts@) == split_on(text@, '\n'),
            views(lines@) == preview_lines(text@).take(i as int),
        decreases n - i,
    {
        let ghost before = lines@;
        let l = trim_end_chars(&parts[i], CharSet::One('\r'));
        lines.push(l);
        proof {
            crate::text::strs::lemma_views_push(before, l);
        }
        assert(preview_lines(text@).take(i + 1) =~= preview_lines(text@).take(i as int).push(
            trim_end_in(parts@[i as int]@, CharSet::One('\r')),
        ));
        i = i + 1;
    }
    assert(preview_lines(text@).take(n as int) =~= preview_lines(text@));
    let nl = vec!['\n'];
    assert(nl@ =~= seq!['\n']);
    let preview = join_chars(&lines, &nl);
    if trim_ws_chars(&preview).len() == 0 {
        None
    } else {
        let m: usize = if preview.len() < 100 {
            preview.len()
        } else {
            100
        };
        let cut = sub_chars(&preview, 0, m);
        assert(cut@ =~= preview@.take(m as int));
        Some(string_of(&cut))
    }
}

} // verus!
