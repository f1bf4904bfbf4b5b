use vstd::prelude::*;

use crate::hashing::{blake3_hex, blake3_hex_of};
use crate::models::{clipboard_type_code, ClipboardRecord, ClipboardType};
use crate::text::html::{html_plain_text, html_to_plain_text};
use crate::text::rtf::{rtf_plain_text, rtf_to_plain_text};
use crate::text::num::{i64_text, int_text};
use crate::text::strs::{chars_eq_str, chars_of, push_all, string_from_utf8, string_of, sub_chars};
use vstd::utf8::{decode_utf8, encode_utf8, valid_utf8};

verus! {

broadcast use vstd::string::group_string_axioms;

/// The name under which plain text is stored.
pub const FORMAT_TEXT: &'static str = "text/plain";

/// The name under which HTML is stored.
pub const FORMAT_HTML: &'static str = "text/html";

/// The name under which RTF is stored.
pub const FORMAT_RTF: &'static str = "text/rtf";

/// The bytes that open a stored format whose data lies in a payload file.
pub const PAYLOAD_REF_PREFIX: &'static str = "share-clip:payload-file:v1\n";

/// The text formats of one clipboard record.
#[derive(Debug, Clone)]
pub struct ClipboardFormats {
    pub text: Option<String>,
    pub html: Option<String>,
    pub rtf: Option<String>,
}

/// The characters of each format, where it is present.
pub struct FormatsView {
    pub text: Option<Seq<char>>,
    pub html: Option<Seq<char>>,
    pub rtf: Option<Seq<char>>,
}

pub open spec fn opt_view(v: Option<String>) -> Option<Seq<char>> {
    match v {
        Some(s) => Some(s@),
        None => None,
    }
}

impl View for ClipboardFormats {
    type V = FormatsView;

    open spec fn view(&self) -> FormatsView {
        FormatsView { text: opt_view(self.text), html: opt_view(self.html), rtf: opt_view(self.rtf) }
    }
}

impl Default for ClipboardFormats {
    fn default() -> (f: ClipboardFormats)
        ensures
            f.text is None,
            f.html is None,
            f.rtf is None,
    {
        ClipboardFormats { text: None, html: None, rtf: None }
    }
}

/// The number of bytes in the UTF-8 encoding of a format, 0 where it is absent.
pub open spec fn byte_len(v: Option<Seq<char>>) -> int {
    match v {
        Some(s) => encode_utf8(s).len() as int,
        None => 0,
    }
}

/// The kind of record that a set of formats is stored as: HTML before RTF
/// before plain text.
pub open spec fn primary_type_of(f: FormatsView) -> ClipboardType {
    if f.html is Some {
        ClipboardType::Html
    } else if f.rtf is Some {
        ClipboardType::Rtf
    } else {
        ClipboardType::Text
    }
}

/// The readable text of a set of formats: the plain text, else the text of
/// the HTML, else the text of the RTF, else nothing.
pub open spec fn primary_text_of(f: FormatsView) -> Seq<char> {
    match f.text {
        Some(t) => t,
        None => match f.html {
            Some(h) => html_plain_text(h),
            None => match f.rtf {
                Some(r) => rtf_plain_text(r),
                None => Seq::<char>::empty(),
            },
        },
    }
}

/// The characters stored as a record's data: the HTML, else the RTF, else
/// the plain text (empty where there is none).
pub open spec fn primary_chars_of(f: FormatsView) -> Seq<char> {
    match f.html {
        Some(h) => h,
        None => match f.rtf {
            Some(r) => r,
            None => match f.text {
                Some(t) => t,
                None => Seq::<char>::empty(),
            },
        },
    }
}

/// The bytes that stand for one format in the combined hash: the format's
/// name, a zero byte, its data, a zero byte.
pub open spec fn framed(format: Seq<char>, data: Option<Seq<char>>) -> Seq<u8> {
    match data {
        Some(d) => encode_utf8(format) + seq![0u8] + encode_utf8(d) + seq![0u8],
        None => Seq::<u8>::empty(),
    }
}

/// The bytes hashed for a set of formats: plain text, HTML, RTF, each framed.
pub open spec fn combined_bytes(f: FormatsView) -> Seq<u8> {
    framed(FORMAT_TEXT@, f.text) + framed(FORMAT_HTML@, f.html) + framed(FORMAT_RTF@, f.rtf)
}

/// The formats that a record stored before formats were kept apart holds:
/// its data as the one format that its kind names, where the data is valid
/// UTF-8 and the kind is a text kind.
pub open spec fn legacy_formats(kind: i32, data: Option<Seq<u8>>) -> Option<FormatsView> {
    match data {
        None => None,
        Some(bytes) => if !valid_utf8(bytes) {
            None
        } else if kind == clipboard_type_code(ClipboardType::Text) {
            Some(FormatsView { text: Some(decode_utf8(bytes)), html: None, rtf: None })
        } else if kind == clipboard_type_code(ClipboardType::Html) {
            Some(FormatsView { text: None, html: Some(decode_utf8(bytes)), rtf: None })
        } else if kind == clipboard_type_code(ClipboardType::Rtf) {
            Some(FormatsView { text: None, html: None, rtf: Some(decode_utf8(bytes)) })
        } else {
            None
        },
    }
}

/// The stored formats, in the order they are written, with their priority:
/// plain text (10), RTF (20), HTML (30).
pub open spec fn ordered_entries_of(f: FormatsView) -> Seq<(Seq<char>, Seq<char>, i32)> {
    let t = match f.text {
        Some(x) => seq![(FORMAT_TEXT@, x, 10i32)],
        None => Seq::empty(),
    };
    let r = match f.rtf {
        Some(x) => seq![(FORMAT_RTF@, x, 20i32)],
        None => Seq::empty(),
    };
    let h = match f.html {
        Some(x) => seq![(FORMAT_HTML@, x, 30i32)],
        None => Seq::empty(),
    };
    t + r + h
}

/// Appends the framing of one format to `buf`.
fn push_framed(buf: &mut Vec<u8>, format: &str, data: &str)
    ensures
        final(buf)@ == old(buf)@ + framed(format@, Some(data@)),
{
    let mut f = format.as_bytes_vec();
    buf.append(&mut f);
    buf.push(0u8);
    let mut d = data.as_bytes_vec();
    buf.append(&mut d);
    buf.push(0u8);
    assert(final(buf)@ =~= old(buf)@ + framed(format@, Some(data@)));
}

impl ClipboardFormats {
    /// Whether no format is present.
    pub fn is_empty(&self) -> (r: bool)
        ensures
            r == (self.text is None && self.html is None && self.rtf is None),
    {
        self.text.is_none() && self.html.is_none() && self.rtf.is_none()
    }

    /// The kind of record these formats are stored as.
    pub fn primary_type(&self) -> (t: ClipboardType)
        ensures
            t == primary_type_of(self@),
    {
        if self.html.is_some() {
            ClipboardType::Html
        } else if self.rtf.is_some() {
            ClipboardType::Rtf
        } else {
            ClipboardType::Text
        }
    }

    /// The readable text of these formats.
    pub fn primary_text(&self) -> (t: String)
        ensures
            t@ == primary_text_of(self@),
    {
        match &self.text {
            Some(text) => text.clone(),
            None => match &self.html {
                Some(html) => html_to_plain_text(html.as_str()),
                None => match &self.rtf {
                    Some(rtf) => rtf_to_plain_text(rtf.as_str()),
                    None => String::new(),
                },
            },
        }
    }

    /// The bytes stored as the record's data.
    pub fn primary_data(&self) -> (d: Vec<u8>)
        ensures
            d@ == encode_utf8(primary_chars_of(self@)),
    {
        match &self.html {
            Some(html) => html.as_str().as_bytes_vec(),
            None => match &self.rtf {
                Some(rtf) => rtf.as_str().as_bytes_vec(),
                None => match &self.text {
                    Some(text) => text.as_str().as_bytes_vec(),
                    None => {
                        let v: Vec<u8> = Vec::new();
                        assert(encode_utf8(Seq::<char>::empty()) =~= Seq::<u8>::empty());
                        v
                    },
                },
            },
        }
    }

    /// The number of bytes of all formats together.
    pub fn total_size(&self) -> (n: i64)
        requires
            byte_len(self@.text) + byte_len(self@.html) + byte_len(self@.rtf) <= i64::MAX,
            byte_len(self@.text) <= usize::MAX,
            byte_len(self@.html) <= usize::MAX,
            byte_len(self@.rtf) <= usize::MAX,
        ensures
            n == byte_len(self@.text) + byte_len(self@.html) + byte_len(self@.rtf),
    {
        let t: usize = match &self.text {
            Some(v) => v.as_str().len(),
            None => 0,
        };
        let h: usize = match &self.html {
            Some(v) => v.as_str().len(),
            None => 0,
        };
        let r: usize = match &self.rtf {
            Some(v) => v.as_str().len(),
            None => 0,
        };
        t as i64 + h as i64 + r as i64
    }

    /// The BLAKE3 digest, in hexadecimal, of all formats together.
    pub fn combined_hash(&self) -> (h: String)
        ensures
            h@ == blake3_hex(combined_bytes(self@)),
    {
        let mut buf: Vec<u8> = Vec::new();
        if let Some(text) = &self.text {
            push_framed(&mut buf, FORMAT_TEXT, text.as_str());
        }
        assert(buf@ =~= framed(FORMAT_TEXT@, self@.text));
        let ghost after_text = buf@;
        if let Some(html) = &self.html {
            push_framed(&mut buf, FORMAT_HTML, html.as_str());
        }
        assert(buf@ =~= after_text + framed(FORMAT_HTML@, self@.html));
        let ghost after_html = buf@;
        if let Some(rtf) = &self.rtf {
            push_framed(&mut buf, FORMAT_RTF, rtf.as_str());
        }
        assert(buf@ =~= after_html + framed(FORMAT_RTF@, self@.rtf));
        assert(buf@ =~= combined_bytes(self@));
        blake3_hex_of(buf.as_slice())
    }

    /// The formats of a record stored before formats were kept apart.
    pub fn from_legacy_record(record: &ClipboardRecord) -> (r: Option<ClipboardFormats>)
        ensures
            r is Some <==> legacy_formats(record.kind, opt_bytes(record.data)) is Some,
            r matches Some(f) ==> legacy_formats(record.kind, opt_bytes(record.data)) == Some(
                f@,
            ),
    {
        let data = match &record.data {
            Some(d) => d.clone(),
            None => {
                return None;
            },
        };
        assert(data@ == record.data.unwrap()@);
        let value = match string_from_utf8(data) {
            Ok(v) => v,
            Err(_) => {
                return None;
            },
        };
        let mut formats = ClipboardFormats::default();
        if record.kind == ClipboardType::Text.code() {
            formats.text = Some(value);
        } else if record.kind == ClipboardType::Html.code() {
            formats.html = Some(value);
        } else if record.kind == ClipboardType::Rtf.code() {
            formats.rtf = Some(value);
        }
        if formats.is_empty() {
            None
        } else {
            Some(formats)
        }
    }

    /// The present formats, in the order they are stored, with their names
    /// and priorities.
    pub fn ordered_entries(&self) -> (r: Vec<(&'static str, &str, i32)>)
        ensures
            r@.len() == ordered_entries_of(self@).len(),
            forall|i: int|
                0 <= i < r@.len() ==> (#[trigger] r@[i]).0@ == ordered_entries_of(self@)[i].0
                    && r@[i].1@ == ordered_entries_of(self@)[i].1 && r@[i].2
                    == ordered_entries_of(self@)[i].2,
    {
        let mut entries: Vec<(&'static str, &str, i32)> = Vec::new();
        if let Some(text) = &self.text {
            entries.push((FORMAT_TEXT, text.as_str(), 10));
        }
        if let Some(rtf) = &self.rtf {
            entries.push((FORMAT_RTF, rtf.as_str(), 20));
        }
        if let Some(html) = &self.html {
            entries.push((FORMAT_HTML, html.as_str(), 30));
        }
        entries
    }
}

/// The bytes of an optional byte buffer.
pub open spec fn opt_bytes(v: Option<Vec<u8>>) -> Option<Seq<u8>> {
    match v {
        Some(b) => Some(b@),
        None => None,
    }
}

/// The format name that a record stored before formats were kept apart has,
/// by its kind.
pub open spec fn legacy_format_name_of(kind: i32) -> Option<Seq<char>> {
    if kind == clipboard_type_code(ClipboardType::Text) {
        Some(FORMAT_TEXT@)
    } else if kind == clipboard_type_code(ClipboardType::Html) {
        Some(FORMAT_HTML@)
    } else if kind == clipboard_type_code(ClipboardType::Rtf) {
        Some(FORMAT_RTF@)
    } else {
        None
    }
}

/// The format name of a record of the given kind, for the text kinds.
pub fn legacy_format_name(record_type: i32) -> (r: Option<String>)
    ensures
        opt_view(r) == legacy_format_name_of(record_type),
{
    if record_type == ClipboardType::Text.code() {
        Some(String::from_str(FORMAT_TEXT))
    } else if record_type == ClipboardType::Html.code() {
        Some(String::from_str(FORMAT_HTML))
    } else if record_type == ClipboardType::Rtf.code() {
        Some(String::from_str(FORMAT_RTF))
    } else {
        None
    }
}

/// The file extension of a payload file that holds a format.
pub open spec fn extension_of(format: Seq<char>) -> Seq<char> {
    if format == FORMAT_HTML@ {
        "html"@
    } else if format == FORMAT_RTF@ {
        "rtf"@
    } else {
        "txt"@
    }
}

/// The file extension of a payload file that holds `format`.
pub fn extension_for_format(format: &str) -> (e: &'static str)
    ensures
        e@ == extension_of(format@),
{
    let chars = chars_of(format);
    if chars_eq_str(&chars, FORMAT_HTML) {
        "html"
    } else if chars_eq_str(&chars, FORMAT_RTF) {
        "rtf"
    } else {
        "txt"
    }
}

/// The largest size, in bytes, that a format is stored inline with: plain
/// text has its own limit, the rich formats share one.
pub fn inline_limit_for(format: &str, text_inline_max_bytes: u64, rich_inline_max_bytes: u64) -> (m:
    u64)
    ensures
        m == if format@ == FORMAT_TEXT@ {
            text_inline_max_bytes
        } else {
            rich_inline_max_bytes
        },
{
    let chars = chars_of(format);
    if chars_eq_str(&chars, FORMAT_TEXT) {
        text_inline_max_bytes
    } else {
        rich_inline_max_bytes
    }
}

/// Whether a format's data is stored in the database itself rather than in
/// a payload file: its UTF-8 encoding is at most `inline_max_bytes` long.
pub fn stores_inline(value: &str, inline_max_bytes: u64) -> (r: bool)
    requires
        encode_utf8(value@).len() <= usize::MAX,
    ensures
        r == (encode_utf8(value@).len() <= inline_max_bytes),
{
    let n: usize = value.len();
    (n as u64) <= inline_max_bytes
}

/// The name of the payload file of a record's format: the record's id, the
/// first 16 digits of the data's hash, and the format's extension.
pub open spec fn payload_file_name_of(clipboard_id: i32, hash: Seq<char>, format: Seq<char>) -> Seq<
    char,
> {
    int_text(clipboard_id as int) + "-"@ + hash.take(16) + "."@ + extension_of(format)
}

/// The name of the payload file of a record's format.
pub fn payload_file_name(clipboard_id: i32, hash: &str, format: &str) -> (name: String)
    requires
        hash@.len() >= 16,
    ensures
        name@ == payload_file_name_of(clipboard_id, hash@, format@),
{
    let mut out = i64_text(clipboard_id as i64);
    out.push('-');
    let h = chars_of(hash);
    let head = sub_chars(&h, 0, 16);
    push_all(&mut out, &head);
    out.push('.');
    let ext = chars_of(extension_for_format(format));
    push_all(&mut out, &ext);
    proof {
        reveal_strlit("-");
        reveal_strlit(".");
    }
    assert(out@ =~= payload_file_name_of(clipboard_id, hash@, format@));
    string_of(&out)
}

/// The data stored for a format held in a payload file: the payload
/// reference prefix, then the reference itself.
pub fn payload_ref_data(reference: &[u8]) -> (d: Vec<u8>)
    ensures
        d@ == encode_utf8(PAYLOAD_REF_PREFIX@) + reference@,
{
    let mut d = PAYLOAD_REF_PREFIX.as_bytes_vec();
    let mut r = vstd::slice::slice_to_vec(reference);
    d.append(&mut r);
    d
}

/// The payload reference that stored data holds, if it opens with the
/// payload reference prefix.
pub open spec fn payload_ref_of(data: Seq<u8>) -> Option<Seq<u8>> {
    let p = encode_utf8(PAYLOAD_REF_PREFIX@);
    if p.is_prefix_of(data) {
        Some(data.subrange(p.len() as int, data.len() as int))
    } else {
        None
    }
}

/// Data stored for a payload file gives back the reference it was stored
/// with.
pub proof fn law_payload_reference_reads_back(reference: Seq<u8>)
    ensures
        payload_ref_of(encode_utf8(PAYLOAD_REF_PREFIX@) + reference) == Some(reference),
{
    let p = encode_utf8(PAYLOAD_REF_PREFIX@);
    let d = p + reference;
    assert(p.is_prefix_of(d)) by {
        assert(d.subrange(0, p.len() as int) =~= p);
    }
    assert(d.subrange(p.len() as int, d.len() as int) =~= reference);
}

/// The payload reference that stored data holds, if any.
pub fn payload_ref_bytes(data: &[u8]) -> (r: Option<Vec<u8>>)
    ensures
        opt_bytes(r) == payload_ref_of(data@),
{
    let p = PAYLOAD_REF_PREFIX.as_bytes_vec();
    if data.len() < p.len() {
        return None;
    }
    let mut i: usize = 0;
    while i < p.len()
        invariant
            i <= p.len() <= data@.len(),
            p@ == encode_utf8(PAYLOAD_REF_PREFIX@),
            forall|k: int| 0 <= k < i ==> p@[k] == data@[k],
        decreases p.len() - i,
    {
        if p[i] != data[i] {
            return None;
        }
        i = i + 1;
    }
    assert(p@.is_prefix_of(data@)) by {
        assert(p@ =~= data@.subrange(0, p@.len() as int));
    }
    let mut out: Vec<u8> = Vec::new();
    let mut j: usize = p.len();
    while j < data.len()
        invariant
            p@.len() <= j <= data@.len(),
            out@ == data@.subrange(p@.len() as int, j as int),
        decreases data.len() - j,
    {
        out.push(data[j]);
        assert(data@.subrange(p@.len() as int, j + 1) =~= data@.subrange(p@.len() as int, j as int).push(data@[j as int]));
        j = j + 1;
    }
    Some(out)
}

} // verus!
