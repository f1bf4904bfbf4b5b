use vstd::prelude::*;

use base64::Engine;

use crate::clipboard_formats::{primary_text_of, ClipboardFormats, FormatsView, FORMAT_HTML, FORMAT_RTF, FORMAT_TEXT};
use crate::models::{clipboard_type_code, AppError, ClipboardRecord, ClipboardType};
use crate::record_files::{app_error_view, is_file_list_kind, AppErrorView};
use crate::text::strs::{chars_eq_str, chars_of, string_from_utf8, utf8_error_text};
use vstd::utf8::{decode_utf8, valid_utf8};

verus! {

broadcast use vstd::string::group_string_axioms;

/// What is put on the system clipboard, or typed into the focused window.
#[derive(Debug)]
pub enum InjectContent {
    Text(String),
    Html(String),
    Rtf(String),
    RichText(ClipboardFormats),
    Image(Vec<u8>),
    Files(Vec<String>),
}

/// The content of an injection, as values.
pub enum ContentView {
    Text(Seq<char>),
    Html(Seq<char>),
    Rtf(Seq<char>),
    RichText(FormatsView),
    Image(Seq<u8>),
    Files(Seq<Seq<char>>),
    ImageFile(Seq<char>),
}

pub open spec fn inject_view(c: InjectContent) -> ContentView {
    match c {
        InjectContent::Text(s) => ContentView::Text(s@),
        InjectContent::Html(s) => ContentView::Html(s@),
        InjectContent::Rtf(s) => ContentView::Rtf(s@),
        InjectContent::RichText(f) => ContentView::RichText(f@),
        InjectContent::Image(b) => ContentView::Image(b@),
        InjectContent::Files(v) => ContentView::Files(v@.map_values(|s: String| s@)),
    }
}

/// The injector of the platform the application runs on.
pub struct Automation;

impl Automation {
    /// The platform's injector.
    pub fn new() -> (a: Self) {
        Automation
    }
}

// ---------------------------------------------------------------------------
// Content received from another device
// ---------------------------------------------------------------------------

/// A clipboard item that another device shares, as it arrives.
pub struct RemoteClipboardContentPayload {
    pub kind: i32,
    pub text: Option<String>,
    pub html: Option<String>,
    pub rtf: Option<String>,
    pub image_base64: Option<String>,
    pub files: Option<Vec<String>>,
}

/// The bytes that the standard Base64 alphabet (with padding) encodes in a
/// text, as `base64`'s `STANDARD` engine decodes it, or its error's message.
pub uninterp spec fn base64_standard_decoded(text: Seq<char>) -> Result<Seq<u8>, Seq<char>>;

/// Decodes `text` with `base64::engine::general_purpose::STANDARD.decode`,
/// with the error's `Display` text on failure. The contract claims only
/// that the outcome is a function of the text (`base64_standard_decoded`).
#[verifier::external_body]
fn decode_base64(text: &str) -> (r: Result<Vec<u8>, String>)
    ensures
        match r {
            Ok(b) => base64_standard_decoded(text@) == Ok::<Seq<u8>, Seq<char>>(b@),
            Err(m) => base64_standard_decoded(text@) == Err::<Seq<u8>, Seq<char>>(m@),
        },
{
    base64::engine::general_purpose::STANDARD.decode(text).map_err(|e| e.to_string())
}

pub open spec fn text_or_empty(v: Option<String>) -> Seq<char> {
    match v {
        Some(s) => s@,
        None => Seq::empty(),
    }
}

/// The content that a shared clipboard item puts here: its formats where it
/// carries HTML or RTF, else by its kind its text, HTML, RTF, decoded image
/// or file list (empty where missing); refused for an image that does not
/// decode and for other kinds.
pub open spec fn remote_content_spec(p: RemoteClipboardContentPayload) -> Result<
    ContentView,
    AppErrorView,
> {
    if p.html is Some || p.rtf is Some {
        Ok(
            ContentView::RichText(
                FormatsView {
                    text: crate::clipboard_formats::opt_view(p.text),
                    html: crate::clipboard_formats::opt_view(p.html),
                    rtf: crate::clipboard_formats::opt_view(p.rtf),
                },
            ),
        )
    } else if p.kind == clipboard_type_code(ClipboardType::Text) {
        Ok(ContentView::Text(text_or_empty(p.text)))
    } else if p.kind == clipboard_type_code(ClipboardType::Html) {
        Ok(ContentView::Html(text_or_empty(p.html)))
    } else if p.kind == clipboard_type_code(ClipboardType::Rtf) {
        Ok(ContentView::Rtf(text_or_empty(p.rtf)))
    } else if p.kind == clipboard_type_code(ClipboardType::Image) {
        match base64_standard_decoded(text_or_empty(p.image_base64)) {
            Ok(b) => Ok(ContentView::Image(b)),
            Err(m) => Err(AppErrorView::InvalidInput("无效图片数据: "@ + m)),
        }
    } else if is_file_list_kind(p.kind) {
        Ok(
            ContentView::Files(
                match p.files {
                    Some(v) => v@.map_values(|s: String| s@),
                    None => Seq::empty(),
                },
            ),
        )
    } else {
        Err(AppErrorView::InvalidInput("不支持的远程剪贴板类型"@))
    }
}

fn or_empty(v: Option<String>) -> (s: String)
    ensures
        s@ == text_or_empty(v),
{
    match v {
        Some(s) => s,
        None => String::new(),
    }
}

/// The content that a shared clipboard item puts here.
pub fn inject_content_from_remote_payload(payload: RemoteClipboardContentPayload) -> (r: Result<
    InjectContent,
    AppError,
>)
    ensures
        match r {
            Ok(c) => remote_content_spec(payload) == Ok::<ContentView, AppErrorView>(inject_view(c)),
            Err(e) => remote_content_spec(payload) == Err::<ContentView, AppErrorView>(
                app_error_view(e),
            ),
        },
{
    if payload.html.is_some() || payload.rtf.is_some() {
        return Ok(
            InjectContent::RichText(
                ClipboardFormats { text: payload.text, html: payload.html, rtf: payload.rtf },
            ),
        );
    }
    if payload.kind == ClipboardType::Text.code() {
        return Ok(InjectContent::Text(or_empty(payload.text)));
    }
    if payload.kind == ClipboardType::Html.code() {
        return Ok(InjectContent::Html(or_empty(payload.html)));
    }
    if payload.kind == ClipboardType::Rtf.code() {
        return Ok(InjectContent::Rtf(or_empty(payload.rtf)));
    }
    if payload.kind == ClipboardType::Image.code() {
        let text = or_empty(payload.image_base64);
        return match decode_base64(text.as_str()) {
            Ok(bytes) => Ok(InjectContent::Image(bytes)),
            Err(m) => {
                let mut msg = String::from_str("无效图片数据: ");
                msg.append(m.as_str());
                Err(AppError::InvalidInput(msg))
            },
        };
    }
    if payload.kind == ClipboardType::File.code() || payload.kind == ClipboardType::Folder.code() {
        let files = match payload.files {
            Some(v) => v,
            None => {
                let v: Vec<String> = Vec::new();
                assert(v@.map_values(|s: String| s@) =~= Seq::<Seq<char>>::empty());
                v
            },
        };
        return Ok(InjectContent::Files(files));
    }
    Err(AppError::InvalidInput(String::from_str("不支持的远程剪贴板类型")))
}

// ---------------------------------------------------------------------------
// Content of a stored record
// ---------------------------------------------------------------------------

/// A record's format that the user picked to paste or copy.
pub struct ClipboardFormatPayload {
    pub id: i32,
    pub format: String,
    pub as_text: bool,
}

/// The content of one format of a record: the readable text for plain
/// text; the HTML or RTF, as text where asked; refused where the record has
/// no such format or the format is unknown.
pub open spec fn format_content_spec(f: FormatsView, format: Seq<char>, as_text: bool) -> Result<
    ContentView,
    AppErrorView,
> {
    if format == FORMAT_TEXT@ {
        Ok(ContentView::Text(primary_text_of(f)))
    } else if format == FORMAT_HTML@ {
        match f.html {
            None => Err(AppErrorView::InvalidInput("该条目没有 HTML 格式"@)),
            Some(h) => if as_text {
                Ok(ContentView::Text(h))
            } else {
                Ok(ContentView::Html(h))
            },
        }
    } else if format == FORMAT_RTF@ {
        match f.rtf {
            None => Err(AppErrorView::InvalidInput("该条目没有 RTF 格式"@)),
            Some(r) => if as_text {
                Ok(ContentView::Text(r))
            } else {
                Ok(ContentView::Rtf(r))
            },
        }
    } else {
        Err(AppErrorView::InvalidInput("不支持的剪贴板格式: "@ + format))
    }
}

/// The content of one format of a record.
pub fn format_content(formats: ClipboardFormats, format: &str, as_text: bool) -> (r: Result<
    InjectContent,
    AppError,
>)
    ensures
        match r {
            Ok(c) => format_content_spec(formats@, format@, as_text) == Ok::<
                ContentView,
                AppErrorView,
            >(inject_view(c)),
            Err(e) => format_content_spec(formats@, format@, as_text) == Err::<
                ContentView,
                AppErrorView,
            >(app_error_view(e)),
        },
{
    let f = chars_of(format);
    if chars_eq_str(&f, FORMAT_TEXT) {
        return Ok(InjectContent::Text(formats.primary_text()));
    }
    if chars_eq_str(&f, FORMAT_HTML) {
        return match formats.html {
            None => Err(AppError::InvalidInput(String::from_str("该条目没有 HTML 格式"))),
            Some(h) => if as_text {
                Ok(InjectContent::Text(h))
            } else {
                Ok(InjectContent::Html(h))
            },
        };
    }
    if chars_eq_str(&f, FORMAT_RTF) {
        return match formats.rtf {
            None => Err(AppError::InvalidInput(String::from_str("该条目没有 RTF 格式"))),
            Some(rtf) => if as_text {
                Ok(InjectContent::Text(rtf))
            } else {
                Ok(InjectContent::Rtf(rtf))
            },
        };
    }
    let mut msg = String::from_str("不支持的剪贴板格式: ");
    msg.append(format);
    Err(AppError::InvalidInput(msg))
}

/// What pasting or copying a whole record puts on the clipboard: content
/// itself, or the cached image file that holds it.
#[derive(Debug)]
pub enum RecordContent {
    Inject(InjectContent),
    ImageFile(String),
}

pub open spec fn record_content_view(c: RecordContent) -> ContentView {
    match c {
        RecordContent::Inject(i) => inject_view(i),
        RecordContent::ImageFile(p) => ContentView::ImageFile(p@),
    }
}

/// The list of texts that `serde_json::from_str::<Vec<String>>` reads from a
/// text, or the message of its error.
pub uninterp spec fn json_text_string_list(text: Seq<char>) -> Result<Seq<Seq<char>>, Seq<char>>;

/// Reads a JSON array of strings with `serde_json::from_str::<Vec<String>>`,
/// with the error's `Display` text on failure. The contract claims only that
/// the outcome is a function of the text (`json_text_string_list`).
#[verifier::external_body]
fn parse_json_text_list(text: &str) -> (r: Result<Vec<String>, String>)
    ensures
        match r {
            Ok(v) => json_text_string_list(text@) == Ok::<Seq<Seq<char>>, Seq<char>>(
                v@.map_values(|s: String| s@),
            ),
            Err(m) => json_text_string_list(text@) == Err::<Seq<Seq<char>>, Seq<char>>(m@),
        },
{
    serde_json::from_str::<Vec<String>>(text).map_err(|e| e.to_string())
}

/// What pasting or copying a whole record puts on the clipboard: for a text
/// kind its stored formats where there are any, else its data as that kind;
/// for an image the file its data names; for files the list its data holds;
/// nothing for other kinds. Refused where the data is not UTF-8 or the list
/// does not read.
pub open spec fn record_content_spec(kind: i32, data: Option<Seq<u8>>, f: FormatsView) -> Result<
    Option<ContentView>,
    AppErrorView,
> {
    let bytes = match data {
        Some(b) => b,
        None => Seq::empty(),
    };
    let formats_empty = f.text is None && f.html is None && f.rtf is None;
    let utf8_error = AppErrorView::InvalidInput("无效的 UTF-8 数据: "@ + utf8_error_text(bytes));
    if kind == clipboard_type_code(ClipboardType::Text) || kind == clipboard_type_code(
        ClipboardType::Html,
    ) || kind == clipboard_type_code(ClipboardType::Rtf) {
        if !formats_empty {
            Ok(Some(ContentView::RichText(f)))
        } else if !valid_utf8(bytes) {
            Err(utf8_error)
        } else if kind == clipboard_type_code(ClipboardType::Text) {
            Ok(Some(ContentView::Text(decode_utf8(bytes))))
        } else if kind == clipboard_type_code(ClipboardType::Html) {
            Ok(Some(ContentView::Html(decode_utf8(bytes))))
        } else {
            Ok(Some(ContentView::Rtf(decode_utf8(bytes))))
        }
    } else if kind == clipboard_type_code(ClipboardType::Image) {
        if !valid_utf8(bytes) {
            Err(utf8_error)
        } else {
            Ok(Some(ContentView::ImageFile(decode_utf8(bytes))))
        }
    } else if is_file_list_kind(kind) {
        if !valid_utf8(bytes) {
            Err(utf8_error)
        } else {
            match json_text_string_list(decode_utf8(bytes)) {
                Ok(files) => Ok(Some(ContentView::Files(files))),
                Err(m) => Err(AppErrorView::Json(m)),
            }
        }
    } else {
        Ok(None)
    }
}

/// What pasting or copying a whole record puts on the clipboard.
pub fn record_content(record: ClipboardRecord, formats: ClipboardFormats) -> (r: Result<
    Option<RecordContent>,
    AppError,
>)
    ensures
        match r {
            Ok(Some(c)) => record_content_spec(
                record.kind,
                crate::clipboard_formats::opt_bytes(record.data),
                formats@,
            ) == Ok::<Option<ContentView>, AppErrorView>(Some(record_content_view(c))),
            Ok(None) => record_content_spec(
                record.kind,
                crate::clipboard_formats::opt_bytes(record.data),
                formats@,
            ) == Ok::<Option<ContentView>, AppErrorView>(None),
            Err(e) => record_content_spec(
                record.kind,
                crate::clipboard_formats::opt_bytes(record.data),
                formats@,
            ) == Err::<Option<ContentView>, AppErrorView>(app_error_view(e)),
        },
{
    let kind = record.kind;
    let is_text = kind == ClipboardType::Text.code();
    let is_html = kind == ClipboardType::Html.code();
    let is_rtf = kind == ClipboardType::Rtf.code();
    let is_image = kind == ClipboardType::Image.code();
    let is_files = kind == ClipboardType::File.code() || kind == ClipboardType::Folder.code();
    if !(is_text || is_html || is_rtf || is_image || is_files) {
        return Ok(None);
    }
    if (is_text || is_html || is_rtf) && !formats.is_empty() {
        return Ok(Some(RecordContent::Inject(InjectContent::RichText(formats))));
    }
    let bytes: Vec<u8> = match record.data {
        Some(b) => b,
        None => Vec::new(),
    };
    let ghost b = bytes@;
    let text = match string_from_utf8(bytes) {
        Ok(t) => t,
        Err(m) => {
            return Err(crate::models::invalid_utf8_error(m.as_str()));
        },
    };
    assert(text@ == decode_utf8(b));
    if is_text {
        Ok(Some(RecordContent::Inject(InjectContent::Text(text))))
    } else if is_html {
        Ok(Some(RecordContent::Inject(InjectContent::Html(text))))
    } else if is_rtf {
        Ok(Some(RecordContent::Inject(InjectContent::Rtf(text))))
    } else if is_image {
        Ok(Some(RecordContent::ImageFile(text)))
    } else {
        match parse_json_text_list(text.as_str()) {
            Ok(files) => Ok(Some(RecordContent::Inject(InjectContent::Files(files)))),
            Err(m) => Err(AppError::Json(m)),
        }
    }
}

// ---------------------------------------------------------------------------
// Files on a text-only clipboard
// ---------------------------------------------------------------------------

/// The text that stands for a list of files where the clipboard takes only
/// text: one `file://` address per file, each followed by a line break.
pub open spec fn file_uri_list_spec(files: Seq<Seq<char>>) -> Seq<char>
    decreases files.len(),
{
    if files.len() == 0 {
        Seq::empty()
    } else {
        file_uri_list_spec(files.drop_last()) + "file://"@ + files.last() + seq!['\n']
    }
}

/// The text that stands for a list of files on a text-only clipboard.
pub fn file_uri_list(files: &Vec<String>) -> (r: String)
    ensures
        r@ == file_uri_list_spec(files@.map_values(|f: String| f@)),
{
    let ghost views = files@.map_values(|f: String| f@);
    let mut out = String::new();
    let mut i: usize = 0;
    while i < files.len()
        invariant
            i <= files@.len(),
            views == files@.map_values(|f: String| f@),
            out@ == file_uri_list_spec(views.take(i as int)),
        decreases files.len() - i,
    {
        out.append("file://");
        out.append(files[i].as_str());
        out.append("\n");
        proof {
            reveal_strlit("\n");
            assert(views.take(i + 1).drop_last() =~= views.take(i as int));
            assert(views.take(i + 1).last() == files@[i as int]@);
        }
        i = i + 1;
    }
    assert(views.take(files.len() as int) =~= views);
    out
}

// ---------------------------------------------------------------------------
// Small replies and events
// ---------------------------------------------------------------------------

/// Whether the share server runs.
pub struct ShareServerStatus {
    pub running: bool,
}

/// The payload of an event that tells the windows which entries changed.
pub struct DataChangedPayload {
    pub entity: &'static str,
    pub ids: Vec<String>,
    pub reason: &'static str,
    pub version: i64,
}

/// A text, HTML or RTF record (kinds 0, 1 and 2) without stored formats
/// and with UTF-8 data is put on the clipboard as content of its own kind:
/// its data as text, as HTML or as RTF; with stored formats, as those.
pub proof fn law_text_record_keeps_its_kind(kind: i32, bytes: Seq<u8>, f: FormatsView)
    requires
        kind == 0 || kind == 1 || kind == 2,
    ensures
        (f.text is None && f.html is None && f.rtf is None && valid_utf8(bytes)) ==> record_content_spec(
            kind,
            Some(bytes),
            f,
        ) == Ok::<Option<ContentView>, AppErrorView>(
            Some(
                if kind == 0 {
                    ContentView::Text(decode_utf8(bytes))
                } else if kind == 1 {
                    ContentView::Html(decode_utf8(bytes))
                } else {
                    ContentView::Rtf(decode_utf8(bytes))
                },
            ),
        ),
        !(f.text is None && f.html is None && f.rtf is None) ==> record_content_spec(
            kind,
            Some(bytes),
            f,
        ) == Ok::<Option<ContentView>, AppErrorView>(Some(ContentView::RichText(f))),
        !valid_utf8(bytes) && f.text is None && f.html is None && f.rtf is None ==> record_content_spec(
            kind,
            Some(bytes),
            f,
        ) is Err,
{
}

/// A picture record (kind 3) with UTF-8 data pastes the file its data
/// names; a file or folder record (kinds 4 and 5) the paths its data lists
/// as JSON, or a JSON error; a record of any other kind pastes nothing;
/// stored text formats do not count for these kinds.
pub proof fn law_other_records_paste_by_kind(kind: i32, bytes: Seq<u8>, f: FormatsView)
    ensures
        kind == 3 && valid_utf8(bytes) ==> record_content_spec(kind, Some(bytes), f) == Ok::<
            Option<ContentView>,
            AppErrorView,
        >(Some(ContentView::ImageFile(decode_utf8(bytes)))),
        (kind == 4 || kind == 5) && valid_utf8(bytes) ==> match json_text_string_list(
            decode_utf8(bytes),
        ) {
            Ok(files) => record_content_spec(kind, Some(bytes), f) == Ok::<
                Option<ContentView>,
                AppErrorView,
            >(Some(ContentView::Files(files))),
            Err(m) => record_content_spec(kind, Some(bytes), f) == Err::<
                Option<ContentView>,
                AppErrorView,
            >(AppErrorView::Json(m)),
        },
        (kind < 0 || kind > 5) ==> record_content_spec(kind, Some(bytes), f) == Ok::<
            Option<ContentView>,
            AppErrorView,
        >(None),
{
}

} // verus!
