use vstd::prelude::*;

use std::hash::BuildHasher;

use crate::clipboard_watch::{read_format_decision, should_read_clipboard_format, ClipboardChangeEvent};
use crate::models::ClipboardRecord;
use crate::paths::{normalize_file_uri, normalized_file_uri};
use crate::record_files::{file_name, file_name_of, preview_from_plain_text, preview_spec};
use crate::text::html::{html_plain_text, html_to_plain_text};
use crate::text::num::{nat_text, u64_text};
use crate::text::rtf::{rtf_plain_text, rtf_to_plain_text};
use crate::text::strs::{chars_of, join_chars, join_with, string_of, views};
use crate::thumbnail::{checked_image_thumbnail, image_thumbnail, thumbnail_size_fits};
use crate::thumbnail::decoded_image;
use vstd::relations::{sorted_by, total_ordering};
use vstd::utf8::encode_utf8;

verus! {

broadcast use vstd::string::group_string_axioms;

// ---------------------------------------------------------------------------
// The hash that identifies a saved clipboard item
// ---------------------------------------------------------------------------

/// The 64-bit hash that std's `DefaultHasher` (as `DefaultHasher::new()`
/// builds it, with its fixed keys) gives of a byte slice hashed with `Hash`.
/// The value is fixed for a given build of std; std does not promise it
/// across releases.
pub uninterp spec fn std_default_hash(bytes: Seq<u8>) -> u64;

/// Hashes a byte slice with a `DefaultHasher` through
/// `BuildHasher::hash_one` on `BuildHasherDefault<DefaultHasher>`, which
/// builds `DefaultHasher::new()`, feeds the slice to it and finishes it. The
/// contract claims only that the hash is a function of the bytes
/// (`std_default_hash`).
#[verifier::external_body]
fn default_hash(bytes: &[u8]) -> (h: u64)
    ensures
        h == std_default_hash(bytes@),
{
    std::hash::BuildHasherDefault::<std::collections::hash_map::DefaultHasher>::default().hash_one(
        bytes,
    )
}

/// The lowercase hexadecimal digit of a value below 16.
pub open spec fn hex_digit(d: int) -> char {
    if d < 10 {
        (d + 48) as char
    } else {
        (d + 87) as char
    }
}

/// The last `n` hexadecimal digits of `v`, zero-padded, most significant
/// first.
pub open spec fn hex_fixed(v: nat, n: nat) -> Seq<char>
    decreases n,
{
    if n == 0 {
        Seq::<char>::empty()
    } else {
        hex_fixed(v / 16, (n - 1) as nat).push(hex_digit((v % 16) as int))
    }
}

fn hex_char(d: u64) -> (c: char)
    requires
        d < 16,
    ensures
        c == hex_digit(d as int),
{
    let b: u8 = d as u8;
    if d < 10 {
        (b + 48) as char
    } else {
        (b + 87) as char
    }
}

fn hex_digits(v: u64, n: usize) -> (r: Vec<char>)
    ensures
        r@ == hex_fixed(v as nat, n as nat),
    decreases n,
{
    if n == 0 {
        Vec::new()
    } else {
        let mut r = hex_digits(v / 16, n - 1);
        r.push(hex_char(v % 16));
        r
    }
}

/// The text of a clipboard hash: 16 lowercase hexadecimal digits.
pub open spec fn hash_text_spec(bytes: Seq<u8>) -> Seq<char> {
    hex_fixed(std_default_hash(bytes) as nat, 16)
}

/// The hash that identifies clipboard content: the `DefaultHasher` hash of
/// the bytes, as 16 lowercase hexadecimal digits (`{:016x}`).
pub fn hash_text(bytes: &[u8]) -> (r: String)
    ensures
        r@ == hash_text_spec(bytes@),
{
    let h = default_hash(bytes);
    let digits = hex_digits(h, 16);
    string_of(&digits)
}

// ---------------------------------------------------------------------------
// Paths in the order of their text
// ---------------------------------------------------------------------------

/// Whether `a` comes no later than `b` in the order of their characters'
/// code points (the order of `String`'s `Ord`).
pub open spec fn text_leq(a: Seq<char>, b: Seq<char>) -> bool
    decreases a.len(),
{
    if a.len() == 0 {
        true
    } else if b.len() == 0 {
        false
    } else if a[0] != b[0] {
        a[0] < b[0]
    } else {
        text_leq(a.drop_first(), b.drop_first())
    }
}

pub open spec fn text_order() -> spec_fn(Seq<char>, Seq<char>) -> bool {
    |a: Seq<char>, b: Seq<char>| text_leq(a, b)
}

proof fn lemma_text_refl(a: Seq<char>)
    ensures
        text_leq(a, a),
    decreases a.len(),
{
    if a.len() > 0 {
        lemma_text_refl(a.drop_first());
    }
}

proof fn lemma_text_antisym(a: Seq<char>, b: Seq<char>)
    requires
        text_leq(a, b),
        text_leq(b, a),
    ensures
        a == b,
    decreases a.len(),
{
    if a.len() == 0 {
        assert(b.len() == 0);
        assert(a =~= b);
    } else {
        assert(b.len() > 0);
        assert(a[0] == b[0]);
        lemma_text_antisym(a.drop_first(), b.drop_first());
        assert(a =~= seq![a[0]] + a.drop_first());
        assert(b =~= seq![b[0]] + b.drop_first());
    }
}

proof fn lemma_text_trans(a: Seq<char>, b: Seq<char>, c: Seq<char>)
    requires
        text_leq(a, b),
        text_leq(b, c),
    ensures
        text_leq(a, c),
    decreases a.len(),
{
    if a.len() > 0 {
        assert(b.len() > 0);
        assert(c.len() > 0);
        if a[0] == b[0] && b[0] == c[0] {
            lemma_text_trans(a.drop_first(), b.drop_first(), c.drop_first());
        }
    }
}

proof fn lemma_text_total(a: Seq<char>, b: Seq<char>)
    ensures
        text_leq(a, b) || text_leq(b, a),
    decreases a.len(),
{
    if a.len() > 0 && b.len() > 0 && a[0] == b[0] {
        lemma_text_total(a.drop_first(), b.drop_first());
    }
}

/// The order of texts is a total order.
pub proof fn lemma_text_order_total()
    ensures
        total_ordering(text_order()),
{
    let r = text_order();
    assert forall|x: Seq<char>| #[trigger] r(x, x) by {
        lemma_text_refl(x);
    }
    assert forall|x: Seq<char>, y: Seq<char>| #[trigger] r(x, y) && #[trigger] r(y, x) implies x
        == y by {
        lemma_text_antisym(x, y);
    }
    assert forall|x: Seq<char>, y: Seq<char>, z: Seq<char>|
        #[trigger] r(x, y) && #[trigger] r(y, z) implies r(x, z) by {
        lemma_text_trans(x, y, z);
    }
    assert forall|x: Seq<char>, y: Seq<char>| #[trigger] r(x, y) || #[trigger] r(y, x) by {
        lemma_text_total(x, y);
    }
}

fn text_le(a: &Vec<char>, b: &Vec<char>) -> (r: bool)
    ensures
        r == text_leq(a@, b@),
{
    let mut i: usize = 0;
    assert(a@.skip(0) =~= a@);
    assert(b@.skip(0) =~= b@);
    while i < a.len() && i < b.len() && a[i] == b[i]
        invariant
            i <= a.len(),
            i <= b.len(),
            text_leq(a@, b@) == text_leq(a@.skip(i as int), b@.skip(i as int)),
        decreases a.len() - i,
    {
        assert(a@.skip(i as int).drop_first() =~= a@.skip(i + 1));
        assert(b@.skip(i as int).drop_first() =~= b@.skip(i + 1));
        i = i + 1;
    }
    if i == a.len() {
        true
    } else if i == b.len() {
        false
    } else {
        a[i] < b[i]
    }
}

/// The characters of each path, in the order of their text.
fn sorted_texts(items: &Vec<String>) -> (r: Vec<Vec<char>>)
    ensures
        views(r@) == items@.map_values(|s: String| s@).sort_by(text_order()),
{
    let ghost all = items@.map_values(|s: String| s@);
    let mut out: Vec<Vec<char>> = Vec::new();
    let mut i: usize = 0;
    proof {
        lemma_text_order_total();
        assert(views(out@) =~= all.take(0));
    }
    while i < items.len()
        invariant
            i <= items.len(),
            all == items@.map_values(|s: String| s@),
            total_ordering(text_order()),
            views(out@).to_multiset() == all.take(i as int).to_multiset(),
            sorted_by(views(out@), text_order()),
        decreases items.len() - i,
    {
        let x = chars_of(items[i].as_str());
        let ghost before = views(out@);
        let mut p: usize = 0;
        while p < out.len() && text_le(&out[p], &x)
            invariant
                p <= out.len(),
                before == views(out@),
                forall|k: int| 0 <= k < p ==> text_leq(#[trigger] before[k], x@),
            decreases out.len() - p,
        {
            p = p + 1;
        }
        proof {
            assert(before.len() == out@.len());
            if p < out.len() {
                assert(before[p as int] == out@[p as int]@);
                assert(!text_leq(before[p as int], x@));
                lemma_text_total(before[p as int], x@);
            }
        }
        out.insert(p, x);
        proof {
            let after = views(out@);
            assert(after =~= before.insert(p as int, x@));
            vstd::seq_lib::to_multiset_insert(before, p as int, x@);
            assert(all.take(i + 1) =~= all.take(i as int).push(items@[i as int]@));
            vstd::seq_lib::to_multiset_build(all.take(i as int), items@[i as int]@);
            let r = text_order();
            assert forall|a: int, b: int| 0 <= a < b < after.len() implies #[trigger] r(
                after[a],
                after[b],
            ) by {
                if b < p {
                    assert(after[a] == before[a] && after[b] == before[b]);
                } else if b == p {
                    assert(after[a] == before[a]);
                } else if a == p {
                    assert(after[b] == before[b - 1]);
                    if p < before.len() {
                        assert(r(x@, before[p as int]));
                        if b - 1 > p {
                            assert(r(before[p as int], before[b - 1]));
                        }
                    }
                } else if a < p {
                    assert(after[a] == before[a] && after[b] == before[b - 1]);
                } else {
                    assert(after[a] == before[a - 1] && after[b] == before[b - 1]);
                }
            }
        }
        i = i + 1;
    }
    proof {
        assert(all.take(items.len() as int) =~= all);
        all.lemma_sort_by_ensures(text_order());
        vstd::seq_lib::lemma_sorted_unique(views(out@), all.sort_by(text_order()), text_order());
    }
    out
}

/// The bytes hashed for a list of paths: the paths in the order of their
/// text, joined by a zero character.
pub open spec fn path_list_key(paths: Seq<Seq<char>>) -> Seq<u8> {
    encode_utf8(join_with(paths.sort_by(text_order()), seq!['\0']))
}

/// The hash that identifies a list of paths, whatever their order: the hash
/// of the paths in the order of their text, joined by a zero character.
pub fn path_list_hash(paths: &Vec<String>) -> (r: String)
    ensures
        r@ == hash_text_spec(path_list_key(paths@.map_values(|s: String| s@))),
{
    let sorted = sorted_texts(paths);
    let mut sep: Vec<char> = Vec::new();
    sep.push('\0');
    assert(sep@ =~= seq!['\0']);
    let joined = join_chars(&sorted, &sep);
    let text = string_of(&joined);
    let bytes = text.as_str().as_bytes_vec();
    hash_text(bytes.as_slice())
}

/// Two lists of the same paths, in any order, have the same hash.
pub proof fn law_path_list_hash_ignores_order(a: Seq<Seq<char>>, b: Seq<Seq<char>>)
    requires
        a.to_multiset() == b.to_multiset(),
    ensures
        path_list_key(a) == path_list_key(b),
{
    lemma_text_order_total();
    a.lemma_sort_by_ensures(text_order());
    b.lemma_sort_by_ensures(text_order());
    vstd::seq_lib::lemma_sorted_unique(a.sort_by(text_order()), b.sort_by(text_order()), text_order());
}

// ---------------------------------------------------------------------------
// The record a clipboard change is saved as
// ---------------------------------------------------------------------------

/// A clipboard record about to be inserted; the store gives it its id.
pub struct NewClipboardRecord {
    pub kind: i32,
    pub data: Option<Vec<u8>>,
    pub preview: Option<String>,
    pub hash: String,
    pub size: i64,
    pub source_app: Option<String>,
    pub created_at: i64,
    pub last_accessed_at: i64,
    pub access_count: i32,
    pub is_favorite: i32,
    pub is_shared: i32,
}

/// Whether a new record is the record of content of kind `kind`, stored as
/// `data`, shown as `preview`, identified by `hash`, of `size` bytes, first
/// seen at `now`: never accessed, no favorite, not shared, of no known
/// source application.
pub open spec fn is_new_record(
    r: NewClipboardRecord,
    kind: i32,
    data: Seq<u8>,
    preview: Option<Seq<char>>,
    hash: Seq<char>,
    size: int,
    now: i64,
) -> bool {
    &&& r.kind == kind
    &&& r.data matches Some(d) && d@ == data
    &&& match r.preview {
        Some(p) => preview == Some(p@),
        None => preview is None,
    }
    &&& r.hash@ == hash
    &&& r.size == size
    &&& r.source_app is None
    &&& r.created_at == now
    &&& r.last_accessed_at == now
    &&& r.access_count == 0
    &&& r.is_favorite == 0
    &&& r.is_shared == 0
}

fn new_record(
    kind: i32,
    data: Vec<u8>,
    preview: Option<String>,
    hash: String,
    now: i64,
) -> (r: NewClipboardRecord)
    requires
        data.len() <= i64::MAX,
    ensures
        r.kind == kind,
        r.data == Some(data),
        r.preview == preview,
        r.hash == hash,
        r.size == data.len(),
        r.source_app is None,
        r.created_at == now,
        r.last_accessed_at == now,
        r.access_count == 0,
        r.is_favorite == 0,
        r.is_shared == 0,
{
    let size = data.len() as i64;
    NewClipboardRecord {
        kind,
        data: Some(data),
        preview,
        hash,
        size,
        source_app: None,
        created_at: now,
        last_accessed_at: now,
        access_count: 0,
        is_favorite: 0,
        is_shared: 0,
    }
}

/// The preview of plain text, empty where the text shows nothing.
pub open spec fn text_preview_or_empty(text: Seq<char>) -> Seq<char> {
    match preview_spec(text) {
        Some(p) => p,
        None => Seq::<char>::empty(),
    }
}

/// The record of copied plain text: kind 0, its UTF-8 bytes as data, its
/// preview (empty where it shows nothing), the hash of its bytes.
pub fn text_record(content: &str, now: i64) -> (r: NewClipboardRecord)
    requires
        encode_utf8(content@).len() <= i64::MAX,
    ensures
        is_new_record(
            r,
            0,
            encode_utf8(content@),
            Some(text_preview_or_empty(content@)),
            hash_text_spec(encode_utf8(content@)),
            encode_utf8(content@).len() as int,
            now,
        ),
{
    let bytes = content.as_bytes_vec();
    let preview = match preview_from_plain_text(content) {
        Some(p) => p,
        None => String::new(),
    };
    let hash = hash_text(bytes.as_slice());
    new_record(0, bytes, Some(preview), hash, now)
}

/// The record of copied HTML: kind 1, its UTF-8 bytes as data, the preview
/// of the text it renders to, the hash of its bytes.
pub fn html_record(html: &str, now: i64) -> (r: NewClipboardRecord)
    requires
        encode_utf8(html@).len() <= i64::MAX,
    ensures
        is_new_record(
            r,
            1,
            encode_utf8(html@),
            preview_spec(html_plain_text(html@)),
            hash_text_spec(encode_utf8(html@)),
            encode_utf8(html@).len() as int,
            now,
        ),
{
    let bytes = html.as_bytes_vec();
    let plain = html_to_plain_text(html);
    let preview = preview_from_plain_text(plain.as_str());
    let hash = hash_text(bytes.as_slice());
    new_record(1, bytes, preview, hash, now)
}

/// The record of copied RTF: kind 2, its UTF-8 bytes as data, the preview of
/// its plain text, the hash of its bytes.
pub fn rtf_record(rtf: &str, now: i64) -> (r: NewClipboardRecord)
    requires
        encode_utf8(rtf@).len() <= i64::MAX,
    ensures
        is_new_record(
            r,
            2,
            encode_utf8(rtf@),
            preview_spec(rtf_plain_text(rtf@)),
            hash_text_spec(encode_utf8(rtf@)),
            encode_utf8(rtf@).len() as int,
            now,
        ),
{
    let bytes = rtf.as_bytes_vec();
    let plain = rtf_to_plain_text(rtf);
    let preview = preview_from_plain_text(plain.as_str());
    let hash = hash_text(bytes.as_slice());
    new_record(2, bytes, preview, hash, now)
}

/// The preview of a picture: its thumbnail of at most 10 kilobytes, where
/// its size can be computed and it encodes; else none.
pub open spec fn image_preview(data: Seq<u8>) -> Option<Seq<char>> {
    match decoded_image(data) {
        Ok(size) => if !thumbnail_size_fits(size.0, size.1) {
            None
        } else {
            match image_thumbnail(data, 10) {
                Ok(s) => Some(s),
                Err(_) => None,
            }
        },
        Err(_) => None,
    }
}

/// The record of a copied picture, kept as a file at `stored_path`: kind 3,
/// the path's bytes as data, its thumbnail as preview, the hash and size of
/// the picture's bytes.
pub fn image_record(image_data: &[u8], stored_path: &str, now: i64) -> (r: NewClipboardRecord)
    requires
        image_data@.len() <= i64::MAX,
    ensures
        r.kind == 3,
        r.data matches Some(d) && d@ == encode_utf8(stored_path@),
        match r.preview {
            Some(p) => image_preview(image_data@) == Some(p@),
            None => image_preview(image_data@) is None,
        },
        r.hash@ == hash_text_spec(image_data@),
        r.size == image_data@.len(),
        r.source_app is None,
        r.created_at == now,
        r.last_accessed_at == now,
        r.access_count == 0,
        r.is_favorite == 0,
        r.is_shared == 0,
{
    let preview = match checked_image_thumbnail(image_data, 10) {
        Some(Ok(s)) => Some(s),
        _ => None,
    };
    let hash = hash_text(image_data);
    let size = image_data.len() as i64;
    NewClipboardRecord {
        kind: 3,
        data: Some(stored_path.as_bytes_vec()),
        preview,
        hash,
        size,
        source_app: None,
        created_at: now,
        last_accessed_at: now,
        access_count: 0,
        is_favorite: 0,
        is_shared: 0,
    }
}

// ---------------------------------------------------------------------------
// Records of copied files and folders
// ---------------------------------------------------------------------------

/// What the file system says of a copied path.
pub enum PathKind {
    /// A folder.
    Folder,
    /// A file, with its size as shown to people where it could be read.
    File { size_text: Option<String> },
    /// Neither (gone, or not readable).
    Other,
}

/// The name a copied path is shown by: its final component, else the path
/// itself (without `file://`).
pub open spec fn shown_name(path: Seq<char>) -> Seq<char> {
    let p = normalized_file_uri(path);
    match file_name_of(p) {
        Some(n) => n,
        None => p,
    }
}

pub open spec fn kind_view(k: PathKind) -> Option<Option<Option<Seq<char>>>> {
    match k {
        PathKind::Folder => None,
        PathKind::File { size_text } => Some(Some(match size_text {
            Some(s) => Some(s@),
            None => None,
        })),
        PathKind::Other => Some(None),
    }
}

/// The preview line of one copied path: a folder sign and its name, a file
/// sign with its name and size, or its name alone.
pub open spec fn path_line(path: Seq<char>, kind: Option<Option<Option<Seq<char>>>>) -> Seq<char> {
    match kind {
        None => "📁 "@ + shown_name(path),
        Some(Some(Some(size))) => "📄 "@ + shown_name(path) + " ("@ + size + ")"@,
        _ => shown_name(path),
    }
}

/// How many paths a preview lists by name: all of up to three, else two.
pub open spec fn listed_count(total: int) -> int {
    if total > 3 {
        2
    } else {
        total
    }
}

pub open spec fn path_lines(paths: Seq<Seq<char>>, kinds: Seq<PathKind>, n: int) -> Seq<Seq<char>>
    decreases n,
{
    if n <= 0 {
        Seq::<Seq<char>>::empty()
    } else {
        path_lines(paths, kinds, n - 1).push(path_line(paths[n - 1], kind_view(kinds[n - 1])))
    }
}

/// The preview of copied paths: a line for each of the first paths listed,
/// and, for more than three, a closing line with how many there are besides.
pub open spec fn files_preview_spec(paths: Seq<Seq<char>>, kinds: Seq<PathKind>) -> Seq<char> {
    let lines = join_with(path_lines(paths, kinds, listed_count(paths.len() as int)), seq!['\n']);
    if paths.len() > 3 {
        lines + "\n等 "@ + nat_text((paths.len() - 2) as nat) + " 个文件"@
    } else {
        lines
    }
}

fn text_of(lit: &str) -> (s: String)
    ensures
        s@ == lit@,
{
    String::from_str(lit)
}

fn path_line_of(path: &str, kind: &PathKind) -> (r: Vec<char>)
    ensures
        r@ == path_line(path@, kind_view(*kind)),
{
    let p = normalize_file_uri(path);
    let name: String = match file_name(p) {
        Some(n) => n,
        None => String::from_str(p),
    };
    let mut s = match kind {
        PathKind::Folder => text_of("📁 "),
        PathKind::File { size_text: Some(_) } => text_of("📄 "),
        _ => String::new(),
    };
    s.append(name.as_str());
    match kind {
        PathKind::File { size_text: Some(size) } => {
            s.append(" (");
            s.append(size.as_str());
            s.append(")");
        },
        _ => {},
    }
    chars_of(s.as_str())
}

/// The preview of copied paths, given what the file system says of each.
pub fn files_preview(paths: &Vec<String>, kinds: &Vec<PathKind>) -> (r: String)
    requires
        kinds.len() == paths.len(),
    ensures
        r@ == files_preview_spec(paths@.map_values(|s: String| s@), kinds@),
{
    let ghost ps = paths@.map_values(|s: String| s@);
    let total = paths.len();
    let count: usize = if total > 3 {
        2
    } else {
        total
    };
    let mut lines: Vec<Vec<char>> = Vec::new();
    let mut i: usize = 0;
    while i < count
        invariant
            i <= count <= total,
            total == paths.len(),
            kinds.len() == total,
            ps == paths@.map_values(|s: String| s@),
            views(lines@) == path_lines(ps, kinds@, i as int),
        decreases count - i,
    {
        let line = path_line_of(paths[i].as_str(), &kinds[i]);
        proof {
            crate::text::strs::lemma_views_push(lines@, line);
        }
        lines.push(line);
        i = i + 1;
    }
    let mut nl: Vec<char> = Vec::new();
    nl.push('\n');
    assert(nl@ =~= seq!['\n']);
    let joined = join_chars(&lines, &nl);
    let mut s = string_of(&joined);
    if total > 3 {
        s.append("\n等 ");
        let n = string_of(&u64_text((total - 2) as u64));
        s.append(n.as_str());
        s.append(" 个文件");
    }
    s
}

/// A character as it stands inside a JSON string that `serde_json` writes:
/// a quote, a backslash and the control characters below U+0020 escaped
/// (`\b`, `\t`, `\n`, `\f`, `\r` by name, the others as `\u00` and two
/// lowercase hexadecimal digits), any other character as it is.
pub open spec fn json_escaped_char(c: char) -> Seq<char> {
    if c == '"' {
        seq!['\\', '"']
    } else if c == '\\' {
        seq!['\\', '\\']
    } else if c == '\u{8}' {
        seq!['\\', 'b']
    } else if c == '\t' {
        seq!['\\', 't']
    } else if c == '\n' {
        seq!['\\', 'n']
    } else if c == '\u{c}' {
        seq!['\\', 'f']
    } else if c == '\r' {
        seq!['\\', 'r']
    } else if (c as u32) < 0x20 {
        seq!['\\', 'u', '0', '0', hex_digit((c as int) / 16), hex_digit((c as int) % 16)]
    } else {
        seq![c]
    }
}

/// The characters of a text as they stand inside a JSON string.
pub open spec fn json_escaped(s: Seq<char>) -> Seq<char>
    decreases s.len(),
{
    if s.len() == 0 {
        Seq::<char>::empty()
    } else {
        json_escaped(s.drop_last()) + json_escaped_char(s.last())
    }
}

/// The compact JSON text of a list of strings, as `serde_json::to_string`
/// writes it: each string quoted and escaped, separated by commas, between
/// `[` and `]`.
pub open spec fn json_string_array(items: Seq<Seq<char>>) -> Seq<char> {
    seq!['['] + join_with(
        items.map_values(|s: Seq<char>| seq!['"'] + json_escaped(s) + seq!['"']),
        seq![','],
    ) + seq![']']
}

/// Writes a list of strings as JSON with `serde_json::to_string`, which
/// cannot fail for strings: its compact formatter writes the array as
/// `json_string_array` states, escaping by serde_json's table.
#[verifier::external_body]
fn write_json_string_list(items: &Vec<String>) -> (r: String)
    ensures
        r@ == json_string_array(items@.map_values(|s: String| s@)),
{
    match serde_json::to_string(items) {
        Ok(s) => s,
        Err(_) => String::new(),
    }
}

/// The kind of a record of copied paths: folders (5) where there are folders
/// and no files, else files (4).
pub open spec fn files_kind(file_count: usize, folder_count: usize) -> i32 {
    if folder_count > 0 && file_count == 0 {
        5
    } else {
        4
    }
}

/// The record of copied paths: the paths as a JSON array for data, their
/// preview, the hash of the paths whatever their order, the size of the
/// JSON text.
pub fn files_record(
    files: &Vec<String>,
    file_count: usize,
    folder_count: usize,
    kinds: &Vec<PathKind>,
    now: i64,
) -> (r: NewClipboardRecord)
    requires
        kinds.len() == files.len(),
        encode_utf8(json_string_array(files@.map_values(|s: String| s@))).len() <= i64::MAX,
    ensures
        is_new_record(
            r,
            files_kind(file_count, folder_count),
            encode_utf8(json_string_array(files@.map_values(|s: String| s@))),
            Some(files_preview_spec(files@.map_values(|s: String| s@), kinds@)),
            hash_text_spec(path_list_key(files@.map_values(|s: String| s@))),
            encode_utf8(json_string_array(files@.map_values(|s: String| s@))).len() as int,
            now,
        ),
{
    let preview = files_preview(files, kinds);
    let json = write_json_string_list(files);
    let bytes = json.as_str().as_bytes_vec();
    let hash = path_list_hash(files);
    let kind: i32 = if folder_count > 0 && file_count == 0 {
        5
    } else {
        4
    };
    new_record(kind, bytes, Some(preview), hash, now)
}


// ---------------------------------------------------------------------------
// From a clipboard change to the stored record
// ---------------------------------------------------------------------------

/// What saving a clipboard change takes next.
pub enum CaptureStep {
    /// Store this record.
    Save(NewClipboardRecord),
    /// Read the picture on the clipboard and keep it as a file; its record
    /// is `image_record`'s.
    ReadImage,
    /// Nothing to store.
    Skip,
}

/// Whether the format that a rich text change is stored as (the first
/// present of HTML, RTF and plain text) fits in the stored size.
pub open spec fn rich_text_fits(text: Option<String>, html: Option<String>, rtf: Option<String>) -> bool {
    match html {
        Some(h) => encode_utf8(h@).len() <= i64::MAX,
        None => match rtf {
            Some(r) => encode_utf8(r@).len() <= i64::MAX,
            None => match text {
                Some(t) => encode_utf8(t@).len() <= i64::MAX,
                None => true,
            },
        },
    }
}

/// Whether the sizes of what a change holds fit in the stored size.
pub open spec fn event_fits(event: ClipboardChangeEvent) -> bool {
    match event {
        ClipboardChangeEvent::Text(t) => encode_utf8(t@).len() <= i64::MAX,
        ClipboardChangeEvent::RichText { text, html, rtf } => rich_text_fits(text, html, rtf),
        ClipboardChangeEvent::Files { files, .. } => encode_utf8(
            json_string_array(files@.map_values(|s: String| s@)),
        ).len() <= i64::MAX,
        _ => true,
    }
}

/// Whether `step` is what a clipboard change leads to at `now`, given what
/// the file system says of copied paths: plain text is stored as text; rich
/// text as its HTML, else its RTF, else its plain text (nothing where it has
/// none); paths as a file list; a picture is read first; an unknown change
/// is skipped.
pub open spec fn capture_step_spec(
    event: ClipboardChangeEvent,
    kinds: Seq<PathKind>,
    now: i64,
    step: CaptureStep,
) -> bool {
    match event {
        ClipboardChangeEvent::Text(t) => step matches CaptureStep::Save(r) && is_new_record(
            r,
            0,
            encode_utf8(t@),
            Some(text_preview_or_empty(t@)),
            hash_text_spec(encode_utf8(t@)),
            encode_utf8(t@).len() as int,
            now,
        ),
        ClipboardChangeEvent::RichText { text, html, rtf } => match html {
            Some(h) => step matches CaptureStep::Save(r) && is_new_record(
                r,
                1,
                encode_utf8(h@),
                preview_spec(html_plain_text(h@)),
                hash_text_spec(encode_utf8(h@)),
                encode_utf8(h@).len() as int,
                now,
            ),
            None => match rtf {
                Some(x) => step matches CaptureStep::Save(r) && is_new_record(
                    r,
                    2,
                    encode_utf8(x@),
                    preview_spec(rtf_plain_text(x@)),
                    hash_text_spec(encode_utf8(x@)),
                    encode_utf8(x@).len() as int,
                    now,
                ),
                None => match text {
                    Some(t) => step matches CaptureStep::Save(r) && is_new_record(
                        r,
                        0,
                        encode_utf8(t@),
                        Some(text_preview_or_empty(t@)),
                        hash_text_spec(encode_utf8(t@)),
                        encode_utf8(t@).len() as int,
                        now,
                    ),
                    None => step is Skip,
                },
            },
        },
        ClipboardChangeEvent::Image => step is ReadImage,
        ClipboardChangeEvent::Files { files, file_count, folder_count } => {
            let fs = files@.map_values(|s: String| s@);
            step matches CaptureStep::Save(r) && is_new_record(
                r,
                files_kind(file_count, folder_count),
                encode_utf8(json_string_array(fs)),
                Some(files_preview_spec(fs, kinds)),
                hash_text_spec(path_list_key(fs)),
                encode_utf8(json_string_array(fs)).len() as int,
                now,
            )
        },
        ClipboardChangeEvent::Unknown { .. } => step is Skip,
    }
}

/// What a clipboard change leads to at `now`; `kinds` says, for a change of
/// copied paths, what each path is.
pub fn capture_step(event: ClipboardChangeEvent, kinds: &Vec<PathKind>, now: i64) -> (step:
    CaptureStep)
    requires
        event_fits(event),
        event matches ClipboardChangeEvent::Files { files, .. } ==> kinds.len() == files.len(),
    ensures
        capture_step_spec(event, kinds@, now, step),
{
    match event {
        ClipboardChangeEvent::Text(t) => CaptureStep::Save(text_record(t.as_str(), now)),
        ClipboardChangeEvent::RichText { text, html, rtf } => match html {
            Some(h) => CaptureStep::Save(html_record(h.as_str(), now)),
            None => match rtf {
                Some(x) => CaptureStep::Save(rtf_record(x.as_str(), now)),
                None => match text {
                    Some(t) => CaptureStep::Save(text_record(t.as_str(), now)),
                    None => CaptureStep::Skip,
                },
            },
        },
        ClipboardChangeEvent::Image => CaptureStep::ReadImage,
        ClipboardChangeEvent::Files { files, file_count, folder_count } => CaptureStep::Save(
            files_record(&files, file_count, folder_count, kinds, now),
        ),
        ClipboardChangeEvent::Unknown { .. } => CaptureStep::Skip,
    }
}

/// What saving a record does to the store.
pub enum SaveAction {
    /// The content is known already: the record with `id` is marked as used
    /// at `at`.
    Touch { id: i32, at: i64 },
    /// The content is new: the record is inserted.
    Insert(NewClipboardRecord),
}

/// Saving a record whose hash the store already holds (`existing`) only
/// marks that record as used at `now`; otherwise the record is inserted.
pub fn save_action(existing: Option<&ClipboardRecord>, new: NewClipboardRecord, now: i64) -> (a:
    SaveAction)
    ensures
        existing matches Some(e) ==> a == (SaveAction::Touch { id: e.id, at: now }),
        existing is None ==> a == SaveAction::Insert(new),
{
    match existing {
        Some(e) => SaveAction::Touch { id: e.id, at: now },
        None => SaveAction::Insert(new),
    }
}

// ---------------------------------------------------------------------------
// Which clipboard change the watcher reports
// ---------------------------------------------------------------------------

/// Which text formats of the clipboard are read.
pub struct FormatsToRead {
    pub text: bool,
    pub html: bool,
    pub rtf: bool,
}

/// The text formats read: plain text, HTML and RTF in turn, each within its
/// own limit (`text_max` for plain text, `rich_max` for the others) and the
/// running total within `total_max`, and present on the clipboard.
pub open spec fn formats_to_read_spec(
    has: (bool, bool, bool),
    hints: (Option<usize>, Option<usize>, Option<usize>),
    text_max: u64,
    rich_max: u64,
    total_max: u64,
) -> (bool, bool, bool) {
    let t = read_format_decision(hints.0, text_max, total_max, 0);
    let h = read_format_decision(hints.1, rich_max, total_max, t.1);
    let r = read_format_decision(hints.2, rich_max, total_max, h.1);
    (t.0 && has.0, h.0 && has.1, r.0 && has.2)
}

/// Which text formats to read, given which are present and their sizes where
/// known.
pub fn formats_to_read(
    has_text: bool,
    has_html: bool,
    has_rtf: bool,
    text_size: Option<usize>,
    html_size: Option<usize>,
    rtf_size: Option<usize>,
    text_max: u64,
    rich_max: u64,
    total_max: u64,
) -> (r: FormatsToRead)
    ensures
        (r.text, r.html, r.rtf) == formats_to_read_spec(
            (has_text, has_html, has_rtf),
            (text_size, html_size, rtf_size),
            text_max,
            rich_max,
            total_max,
        ),
{
    let mut projected: u64 = 0;
    let text = should_read_clipboard_format(text_size, text_max, total_max, &mut projected)
        && has_text;
    let html = should_read_clipboard_format(html_size, rich_max, total_max, &mut projected)
        && has_html;
    let rtf = should_read_clipboard_format(rtf_size, rich_max, total_max, &mut projected)
        && has_rtf;
    FormatsToRead { text, html, rtf }
}

/// The change the watcher reports, in order of priority: copied paths; then,
/// where the clipboard has a text format, its rich text where HTML or RTF
/// was read, else the paths a text lists, else the text read, else nothing
/// (every text format was over its limit); then a picture; else an unknown
/// change with the clipboard's format names.
pub open spec fn chosen_event(
    file_event: Option<ClipboardChangeEvent>,
    has_text_format: bool,
    text: Option<String>,
    html: Option<String>,
    rtf: Option<String>,
    text_list_event: Option<ClipboardChangeEvent>,
    has_image: bool,
    formats: Vec<String>,
) -> Option<ClipboardChangeEvent> {
    if file_event is Some {
        file_event
    } else if has_text_format {
        if html is Some || rtf is Some {
            Some(ClipboardChangeEvent::RichText { text, html, rtf })
        } else {
            match text {
                Some(t) => if text_list_event is Some {
                    text_list_event
                } else {
                    Some(ClipboardChangeEvent::Text(t))
                },
                None => None,
            }
        }
    } else if has_image {
        Some(ClipboardChangeEvent::Image)
    } else {
        Some(ClipboardChangeEvent::Unknown { formats })
    }
}

/// The change to report, given the file-list change read (if any), whether
/// a text format is present, the text formats read, the file-list change
/// that the text read names (if any), whether a picture is present, and the
/// clipboard's format names; `None` where nothing passed the size limits.
pub fn choose_clipboard_event(
    file_event: Option<ClipboardChangeEvent>,
    has_text_format: bool,
    text: Option<String>,
    html: Option<String>,
    rtf: Option<String>,
    text_list_event: Option<ClipboardChangeEvent>,
    has_image: bool,
    formats: Vec<String>,
) -> (r: Option<ClipboardChangeEvent>)
    ensures
        r == chosen_event(
            file_event,
            has_text_format,
            text,
            html,
            rtf,
            text_list_event,
            has_image,
            formats,
        ),
{
    if file_event.is_some() {
        return file_event;
    }
    if has_text_format {
        if html.is_some() || rtf.is_some() {
            return Some(ClipboardChangeEvent::RichText { text, html, rtf });
        }
        return match text {
            Some(t) => if text_list_event.is_some() {
                text_list_event
            } else {
                Some(ClipboardChangeEvent::Text(t))
            },
            None => None,
        };
    }
    if has_image {
        Some(ClipboardChangeEvent::Image)
    } else {
        Some(ClipboardChangeEvent::Unknown { formats })
    }
}


fn bytes_fit(s: &str) -> (b: bool)
    ensures
        b == (encode_utf8(s@).len() <= i64::MAX),
{
    let bytes = s.as_bytes_vec();
    (bytes.len() as u64) <= (i64::MAX as u64)
}

/// What a clipboard change leads to at `now`, where what it holds fits in
/// the stored size and `kinds` has an entry for each copied path; `None`
/// where it does not.
pub fn checked_capture_step(event: ClipboardChangeEvent, kinds: &Vec<PathKind>, now: i64) -> (r:
    Option<CaptureStep>)
    ensures
        r is None <==> !(event_fits(event) && (event matches ClipboardChangeEvent::Files {
            files,
            ..
        } ==> kinds.len() == files.len())),
        r matches Some(step) ==> capture_step_spec(event, kinds@, now, step),
{
    let fits = match &event {
        ClipboardChangeEvent::Text(t) => bytes_fit(t.as_str()),
        ClipboardChangeEvent::RichText { text, html, rtf } => match html {
            Some(h) => bytes_fit(h.as_str()),
            None => match rtf {
                Some(x) => bytes_fit(x.as_str()),
                None => match text {
                    Some(t) => bytes_fit(t.as_str()),
                    None => true,
                },
            },
        },
        ClipboardChangeEvent::Files { files, .. } => {
            let json = write_json_string_list(files);
            kinds.len() == files.len() && bytes_fit(json.as_str())
        },
        _ => true,
    };
    if fits {
        Some(capture_step(event, kinds, now))
    } else {
        None
    }
}

/// Whether a step saves a record of `kind` whose data is `data`.
pub open spec fn saves_kind_and_data(step: CaptureStep, kind: i32, data: Seq<u8>) -> bool {
    match step {
        CaptureStep::Save(r) => r.kind == kind && match r.data {
            Some(d) => d@ == data,
            None => false,
        },
        _ => false,
    }
}

/// Plain text is saved as a text record (kind 0) of its UTF-8 bytes; copied
/// paths as a file-list record, of kind 5 where they are only folders and 4
/// otherwise, whose hash does not depend on the paths' order; a picture is
/// read first; an unknown change is not saved.
pub proof fn law_capture_kind_by_event(event: ClipboardChangeEvent, kinds: Seq<PathKind>, now: i64, step: CaptureStep)
    requires
        capture_step_spec(event, kinds, now, step),
    ensures
        event matches ClipboardChangeEvent::Text(t) ==> saves_kind_and_data(step, 0, encode_utf8(t@)),
        event matches ClipboardChangeEvent::Files { files, file_count, folder_count } ==> (
        step matches CaptureStep::Save(r) && r.kind == (if folder_count > 0 && file_count == 0 {
            5i32
        } else {
            4i32
        })),
        event is Image ==> step is ReadImage,
        event is Unknown ==> step is Skip,
        event matches ClipboardChangeEvent::Text(t) ==> (step matches CaptureStep::Save(r) && r.created_at
            == now && r.last_accessed_at == now && r.access_count == 0 && r.is_favorite == 0
            && r.is_shared == 0),
{
}

/// A rich text change is saved as its HTML where it carries HTML, whatever
/// RTF or text it carries besides; else as its RTF; else as its plain text:
/// the record's kind is 1, 2 or 0 and its data is that format's UTF-8 bytes.
pub proof fn law_rich_text_saved_as_html_first(
    text: Option<String>,
    html: Option<String>,
    rtf: Option<String>,
    kinds: Seq<PathKind>,
    now: i64,
    step: CaptureStep,
)
    requires
        capture_step_spec(ClipboardChangeEvent::RichText { text, html, rtf }, kinds, now, step),
    ensures
        html matches Some(h) ==> saves_kind_and_data(step, 1, encode_utf8(h@)),
        html is None ==> (rtf matches Some(x) ==> saves_kind_and_data(step, 2, encode_utf8(x@))),
        html is None && rtf is None ==> (text matches Some(t) ==> saves_kind_and_data(
            step,
            0,
            encode_utf8(t@),
        )),
        html is None && rtf is None && text is None ==> step is Skip,
{
}

} // verus!
