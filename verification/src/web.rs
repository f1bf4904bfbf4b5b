use vstd::prelude::*;

use crate::config::AppConfig;
use crate::paths::{is_forbidden_path_error, is_forbidden_path_error_spec};
use crate::text::num::{nat_text, parse_u64_spec, u64_text};
use crate::text::strs::{
    chars_of, find_first, find_last, first_index, last_index, lemma_views_push, opt_str_view,
    push_all, replace_char, replace_chars, split_chars, split_on, split_once_at, string_of,
    sub_chars, trim_chars, trim_in, trim_ws, trim_ws_chars, trimmed, views, CharSet,
};
use crate::web_auth::{
    is_scope_enabled, scope_enabled, scope_name, scope_names, WebAccessRequest, WebAccessScope,
    COOKIE_NAME,
};
use vstd::utf8::encode_utf8;

verus! {

broadcast use vstd::string::group_string_axioms;

// ---------------------------------------------------------------------------
// HTML and URL text
// ---------------------------------------------------------------------------

/// The HTML text that stands for one character.
pub open spec fn escape_char(c: char) -> Seq<char> {
    if c == '&' {
        "&amp;"@
    } else if c == '<' {
        "&lt;"@
    } else if c == '>' {
        "&gt;"@
    } else if c == '"' {
        "&quot;"@
    } else if c == '\'' {
        "&#39;"@
    } else {
        seq![c]
    }
}

/// `s` with `&`, `<`, `>`, `"` and `'` written as HTML character references.
pub open spec fn escaped_html(s: Seq<char>) -> Seq<char>
    decreases s.len(),
{
    if s.len() == 0 {
        Seq::empty()
    } else {
        escaped_html(s.drop_last()) + escape_char(s.last())
    }
}

/// `value` made safe to stand in HTML text or an attribute.
pub fn escape_html(value: &str) -> (r: String)
    ensures
        r@ == escaped_html(value@),
{
    let chars = chars_of(value);
    let mut out: Vec<char> = Vec::new();
    let mut i: usize = 0;
    while i < chars.len()
        invariant
            i <= chars.len(),
            chars@ == value@,
            out@ == escaped_html(chars@.take(i as int)),
        decreases chars.len() - i,
    {
        let c = chars[i];
        let piece: Vec<char> = if c == '&' {
            chars_of("&amp;")
        } else if c == '<' {
            chars_of("&lt;")
        } else if c == '>' {
            chars_of("&gt;")
        } else if c == '"' {
            chars_of("&quot;")
        } else if c == '\'' {
            chars_of("&#39;")
        } else {
            let v = vec![c];
            assert(v@ =~= seq![c]);
            v
        };
        push_all(&mut out, &piece);
        assert(chars@.take(i + 1).drop_last() =~= chars@.take(i as int));
        i = i + 1;
    }
    assert(chars@.take(chars.len() as int) =~= chars@);
    string_of(&out)
}

/// A byte that a URL carries as it is: an ASCII letter or digit, `-`, `_`,
/// `.` or `~`.
pub open spec fn is_unreserved(b: u8) -> bool {
    (48 <= b <= 57) || (65 <= b <= 90) || (97 <= b <= 122) || b == 45 || b == 95 || b == 46 || b
        == 126
}

/// The uppercase hexadecimal digit of a value below 16.
pub open spec fn hex_upper(n: u8) -> char {
    if n < 10 {
        (48 + n) as char
    } else {
        (55 + n) as char
    }
}

/// The URL text of one byte: the byte itself where it is unreserved, else
/// `%` and two uppercase hexadecimal digits.
pub open spec fn encode_byte(b: u8) -> Seq<char> {
    if is_unreserved(b) {
        seq![b as char]
    } else {
        seq!['%', hex_upper(b / 16), hex_upper(b % 16)]
    }
}

/// The URL text of a byte sequence.
pub open spec fn url_encoded_bytes(b: Seq<u8>) -> Seq<char>
    decreases b.len(),
{
    if b.len() == 0 {
        Seq::empty()
    } else {
        url_encoded_bytes(b.drop_last()) + encode_byte(b.last())
    }
}

/// The URL text of `s`, byte by byte of its UTF-8 encoding.
pub open spec fn url_encoded(s: Seq<char>) -> Seq<char> {
    url_encoded_bytes(encode_utf8(s))
}

fn hex_digit(n: u8) -> (c: char)
    requires
        n < 16,
    ensures
        c == hex_upper(n),
{
    if n < 10 {
        (48 + n) as char
    } else {
        (55 + n) as char
    }
}

/// `value` percent-encoded for a URL path segment or query value.
pub fn url_encode(value: &str) -> (r: String)
    ensures
        r@ == url_encoded(value@),
{
    let bytes = value.as_bytes_vec();
    let mut out: Vec<char> = Vec::new();
    let mut i: usize = 0;
    while i < bytes.len()
        invariant
            i <= bytes.len(),
            bytes@ == encode_utf8(value@),
            out@ == url_encoded_bytes(bytes@.take(i as int)),
        decreases bytes.len() - i,
    {
        let b = bytes[i];
        let unreserved = (48 <= b && b <= 57) || (65 <= b && b <= 90) || (97 <= b && b <= 122) || b
            == 45 || b == 95 || b == 46 || b == 126;
        if unreserved {
            out.push(b as char);
        } else {
            out.push('%');
            out.push(hex_digit(b / 16));
            out.push(hex_digit(b % 16));
        }
        assert(bytes@.take(i + 1).drop_last() =~= bytes@.take(i as int));
        assert(out@ =~= url_encoded_bytes(bytes@.take(i + 1)));
        i = i + 1;
    }
    assert(bytes@.take(bytes.len() as int) =~= bytes@);
    string_of(&out)
}

/// Whether a character can stand in HTML text or an attribute value as it
/// is: none of `<`, `>`, `"` and `'`.
pub open spec fn html_inert(c: char) -> bool {
    c != '<' && c != '>' && c != '"' && c != '\''
}

/// Escaped text holds no character that opens or closes markup or an
/// attribute value.
pub proof fn law_escaped_html_is_inert(s: Seq<char>)
    ensures
        forall|i: int| 0 <= i < escaped_html(s).len() ==> html_inert(#[trigger] escaped_html(s)[i]),
    decreases s.len(),
{
    if s.len() > 0 {
        law_escaped_html_is_inert(s.drop_last());
        let prev = escaped_html(s.drop_last());
        let tail = escape_char(s.last());
        let all = escaped_html(s);
        assert(all == prev + tail);
        reveal_strlit("&amp;");
        reveal_strlit("&lt;");
        reveal_strlit("&gt;");
        reveal_strlit("&quot;");
        reveal_strlit("&#39;");
        assert forall|i: int| 0 <= i < all.len() implies html_inert(#[trigger] all[i]) by {
            if i >= prev.len() {
                assert(all[i] == tail[i - prev.len()]);
            } else {
                assert(all[i] == prev[i]);
            }
        }
    }
}

/// Whether a character can stand in a URL as it is: an ASCII letter or
/// digit, one of `-_.~`, or the `%` of an escape.
pub open spec fn url_safe(c: char) -> bool {
    ('0' <= c <= '9') || ('A' <= c <= 'Z') || ('a' <= c <= 'z') || c == '-' || c == '_' || c == '.'
        || c == '~' || c == '%'
}

/// Percent-encoded text holds only characters that stand in a URL as they
/// are: no separator of paths or queries (`/`, `?`, `&`, `=`, `#`) and no
/// space survives.
pub proof fn law_url_encoding_is_safe(b: Seq<u8>)
    ensures
        forall|i: int| 0 <= i < url_encoded_bytes(b).len() ==> url_safe(#[trigger] url_encoded_bytes(b)[i]),
    decreases b.len(),
{
    if b.len() > 0 {
        law_url_encoding_is_safe(b.drop_last());
        let prev = url_encoded_bytes(b.drop_last());
        let tail = encode_byte(b.last());
        let all = url_encoded_bytes(b);
        let x = b.last();
        assert(x / 16 < 16 && x % 16 < 16);
        assert forall|i: int| 0 <= i < all.len() implies url_safe(#[trigger] all[i]) by {
            if i >= prev.len() {
                assert(all[i] == tail[i - prev.len()]);
            } else {
                assert(all[i] == prev[i]);
            }
        }
    }
}

/// Whether a relative path names a share's root: `.` itself.
pub open spec fn is_root_relative(path: Seq<char>) -> bool {
    path == seq!['.']
}

fn is_dot(v: &Vec<char>) -> (r: bool)
    ensures
        r == is_root_relative(v@),
{
    let r = v.len() == 1 && v[0] == '.';
    assert(r ==> v@ =~= seq!['.']);
    r
}

/// The query that opens a path inside a share: none for the root or a blank
/// path, else `?path=` and the encoded path.
pub open spec fn path_query_spec(path: Seq<char>) -> Seq<char> {
    if is_root_relative(path) || trim_ws(path).len() == 0 {
        Seq::empty()
    } else {
        "?path="@ + url_encoded(path)
    }
}

/// The query that opens `path` inside a share.
pub fn path_query(path: &str) -> (r: String)
    ensures
        r@ == path_query_spec(path@),
{
    let chars = chars_of(path);
    if is_dot(&chars) || trimmed(path).len() == 0 {
        return String::new();
    }
    let mut out = String::from_str("?path=");
    let enc = url_encode(path);
    out.append(enc.as_str());
    out
}

/// The link that downloads `path` of the share `id`.
pub open spec fn download_href_spec(id: Seq<char>, path: Seq<char>) -> Seq<char> {
    let base = "/api/files/"@ + url_encoded(id) + "/download"@;
    if is_root_relative(path) {
        base
    } else {
        base + "?path="@ + url_encoded(path)
    }
}

/// The link that downloads `path` of the share `id`.
pub fn download_href(id: &str, path: &str) -> (r: String)
    ensures
        r@ == download_href_spec(id@, path@),
{
    let mut href = String::from_str("/api/files/");
    let enc_id = url_encode(id);
    href.append(enc_id.as_str());
    href.append("/download");
    if !is_dot(&chars_of(path)) {
        href.append("?path=");
        let enc = url_encode(path);
        href.append(enc.as_str());
    }
    href
}

/// The parent of a relative path inside a share: none for the root, `.` for
/// a top-level entry, else the path up to its last `/`.
pub open spec fn parent_path_spec(path: Seq<char>) -> Option<Seq<char>> {
    let value = trim_in(path, CharSet::One('/'));
    if value.len() == 0 || is_root_relative(value) {
        None
    } else if last_index(value, '/') >= 0 {
        Some(value.take(last_index(value, '/')))
    } else {
        Some(seq!['.'])
    }
}

/// The parent of a relative path inside a share.
pub fn parent_path(path: &str) -> (r: Option<String>)
    ensures
        match r {
            Some(p) => parent_path_spec(path@) == Some(p@),
            None => parent_path_spec(path@) is None,
        },
{
    let value = trim_chars(&chars_of(path), CharSet::One('/'));
    if value.len() == 0 || is_dot(&value) {
        return None;
    }
    match find_last(&value, '/') {
        Some(i) => Some(string_of(&sub_chars(&value, 0, i))),
        None => {
            let dot = vec!['.'];
            assert(dot@ =~= seq!['.']);
            Some(string_of(&dot))
        },
    }
}

/// The icon of a shared entry: a folder for directories, else a page.
pub fn share_icon(file_type: i32) -> (r: &'static str)
    ensures
        r@ == if file_type == 1 {
            "📁"@
        } else {
            "📄"@
        },
{
    if file_type == 1 {
        "📁"
    } else {
        "📄"
    }
}

/// The kind of a shared entry, as shown to users.
pub fn share_kind_label(file_type: i32) -> (r: &'static str)
    ensures
        r@ == if file_type == 1 {
            "目录"@
        } else if file_type == 2 {
            "图片"@
        } else {
            "文件"@
        },
{
    if file_type == 1 {
        "目录"
    } else if file_type == 2 {
        "图片"
    } else {
        "文件"
    }
}

/// The name of the entry that a relative path names: the root keeps `.`,
/// else the piece after the last `/`, or the whole path where that is empty.
pub open spec fn name_of_relative_path(path: Seq<char>) -> Seq<char> {
    if is_root_relative(path) {
        path
    } else {
        let tail = path.skip(last_index(path, '/') + 1);
        if tail.len() == 0 {
            path
        } else {
            tail
        }
    }
}

proof fn lemma_last_index_bounds(s: Seq<char>, c: char)
    ensures
        -1 <= last_index(s, c) < s.len(),
    decreases s.len(),
{
    if s.len() > 0 {
        lemma_last_index_bounds(s.drop_last(), c);
    }
}

/// The name of the entry that a relative path names.
pub fn name_from_relative_path(path: &str) -> (r: String)
    ensures
        r@ == name_of_relative_path(path@),
{
    let chars = chars_of(path);
    if is_dot(&chars) {
        return string_of(&chars);
    }
    let start: usize = match find_last(&chars, '/') {
        Some(i) => i + 1,
        None => 0,
    };
    proof {
        lemma_last_index_bounds(path@, '/');
    }
    let tail = sub_chars(&chars, start, chars.len());
    assert(tail@ =~= path@.skip(last_index(path@, '/') + 1));
    if tail.len() == 0 {
        string_of(&chars)
    } else {
        string_of(&tail)
    }
}

/// The directory filter of an index query: trimmed, with `/` for `\\`; none
/// where it is absent or blank.
pub open spec fn parent_filter_spec(path: Option<Seq<char>>) -> Option<Seq<char>> {
    match path {
        None => None,
        Some(p) => if trim_ws(p).len() == 0 {
            None
        } else {
            Some(replace_char(trim_ws(p), '\\', '/'))
        },
    }
}

/// The directory filter of an index query.
pub fn normalize_parent_filter(path: Option<&str>) -> (r: Option<String>)
    ensures
        match r {
            Some(p) => parent_filter_spec(opt_str_view(path)) == Some(p@),
            None => parent_filter_spec(opt_str_view(path)) is None,
        },
{
    match path {
        None => None,
        Some(p) => {
            let t = trimmed(p);
            if t.len() == 0 {
                None
            } else {
                Some(string_of(&replace_chars(&t, '\\', '/')))
            }
        },
    }
}

// ---------------------------------------------------------------------------
// Cookies
// ---------------------------------------------------------------------------

/// The `Set-Cookie` value that hands a browser its session token, kept for
/// at least a minute.
pub open spec fn web_session_cookie_spec(token: Seq<char>, max_age_seconds: u64) -> Seq<char> {
    let age: nat = if max_age_seconds < 60 {
        60
    } else {
        max_age_seconds as nat
    };
    COOKIE_NAME@ + "="@ + token + "; Path=/; Max-Age="@ + nat_text(age)
        + "; HttpOnly; SameSite=Lax"@
}

/// A browser that sends back the session cookie it was handed is known by
/// its token: the cookie's pair, alone or after other cookies that do not
/// bear its name, reads back as the token.
pub proof fn law_session_cookie_reads_back(token: Seq<char>, max_age_seconds: u64, others: Seq<char>)
    requires
        !token.contains(';'),
        token.len() > 0 ==> !crate::text::strs::is_ws(token.last()),
        cookie_value_spec(others, COOKIE_NAME@) is None,
    ensures
        ({
            let pair = split_on(web_session_cookie_spec(token, max_age_seconds), ';')[0];
            &&& pair == COOKIE_NAME@ + "="@ + token
            &&& cookie_value_spec(pair, COOKIE_NAME@) == Some(token)
            &&& cookie_value_spec(others + "; "@ + pair, COOKIE_NAME@) == Some(token)
        }),
{
    reveal_strlit("share_clip_web_session");
    reveal_strlit("=");
    reveal_strlit("; ");
    reveal_strlit("; Path=/; Max-Age=");
    reveal_strlit(" Path=/; Max-Age=");
    let name = COOKIE_NAME@;
    let pair = name + "="@ + token;
    let age: nat = if max_age_seconds < 60 {
        60
    } else {
        max_age_seconds as nat
    };
    let rest = " Path=/; Max-Age="@ + crate::text::num::nat_text(age) + "; HttpOnly; SameSite=Lax"@;
    assert("; Path=/; Max-Age="@ =~= seq![';'] + " Path=/; Max-Age="@);
    assert(web_session_cookie_spec(token, max_age_seconds) =~= pair + seq![';'] + rest);
    assert(!pair.contains(';')) by {
        if pair.contains(';') {
            let k = choose|k: int| 0 <= k < pair.len() && pair[k] == ';';
            if k >= name.len() + 1 {
                assert(token[k - name.len() - 1] == ';');
                assert(token.contains(';'));
            }
        }
    }
    crate::paths::lemma_split_concat(pair, rest, ';');
    crate::paths::lemma_split_no_sep(pair, ';');
    crate::text::strs::lemma_split_on_nonempty(rest, ';');
    // The pair reads back as the token.
    assert(!crate::text::strs::is_ws(pair[0]));
    assert(pair.len() > 0 && !crate::text::strs::is_ws(pair.last())) by {
        if token.len() > 0 {
            assert(pair.last() == token.last());
        } else {
            assert(pair.last() == '=');
        }
    }
    crate::text::strs::lemma_trim_keeps(pair, crate::text::strs::CharSet::Whitespace);
    assert(crate::text::strs::first_index(pair, '=') == name.len()) by {
        crate::text::strs::lemma_first_index(pair, '=', name.len() as int);
    }
    assert(pair.take(name.len() as int) =~= name);
    assert(pair.skip(name.len() as int + 1) =~= token);
    assert(cookie_pair_value(pair, name) == Some(token));
    assert(cookie_lookup(seq![pair], name) == Some(token));
    // After other cookies, with a space before it.
    let spaced = seq![' '] + pair;
    assert(others + "; "@ + pair =~= others + seq![';'] + spaced);
    crate::paths::lemma_split_concat(others, spaced, ';');
    assert(!spaced.contains(';')) by {
        if spaced.contains(';') {
            let k = choose|k: int| 0 <= k < spaced.len() && spaced[k] == ';';
            assert(pair[k - 1] == ';');
            assert(pair.contains(';'));
        }
    }
    crate::paths::lemma_split_no_sep(spaced, ';');
    assert(crate::text::strs::trim_start_in(spaced, crate::text::strs::CharSet::Whitespace) == crate::text::strs::trim_start_in(pair, crate::text::strs::CharSet::Whitespace)) by {
        assert(spaced.drop_first() =~= pair);
    }
    assert(trim_ws(spaced) == pair);
    assert(cookie_pair_value(spaced, name) == Some(token));
    assert(cookie_lookup(seq![spaced], name) == Some(token));
    lemma_lookup_concat(split_on(others, ';'), seq![spaced], name);
}

/// The `Set-Cookie` value that hands a browser its session token.
pub fn web_session_cookie(token: &str, max_age_seconds: u64) -> (r: String)
    ensures
        r@ == web_session_cookie_spec(token@, max_age_seconds),
{
    let age: u64 = if max_age_seconds < 60 {
        60
    } else {
        max_age_seconds
    };
    let mut out = String::from_str(COOKIE_NAME);
    out.append("=");
    out.append(token);
    out.append("; Path=/; Max-Age=");
    let digits = string_of(&u64_text(age));
    out.append(digits.as_str());
    out.append("; HttpOnly; SameSite=Lax");
    out
}

/// The value of a `name=value` pair of a `Cookie` header, if its name is
/// `name`.
pub open spec fn cookie_pair_value(part: Seq<char>, name: Seq<char>) -> Option<Seq<char>> {
    match split_once_at(trim_ws(part), '=') {
        Some(kv) => if kv.0 == name {
            Some(kv.1)
        } else {
            None
        },
        None => None,
    }
}

/// The value of the first pair named `name` among `parts`.
pub open spec fn cookie_lookup(parts: Seq<Seq<char>>, name: Seq<char>) -> Option<Seq<char>>
    decreases parts.len(),
{
    if parts.len() == 0 {
        None
    } else {
        match cookie_pair_value(parts[0], name) {
            Some(v) => Some(v),
            None => cookie_lookup(parts.drop_first(), name),
        }
    }
}

proof fn lemma_lookup_concat(xs: Seq<Seq<char>>, ys: Seq<Seq<char>>, name: Seq<char>)
    requires
        cookie_lookup(xs, name) is None,
    ensures
        cookie_lookup(xs + ys, name) == cookie_lookup(ys, name),
    decreases xs.len(),
{
    if xs.len() == 0 {
        assert(xs + ys =~= ys);
    } else {
        lemma_lookup_concat(xs.drop_first(), ys, name);
        assert((xs + ys).drop_first() =~= xs.drop_first() + ys);
        assert((xs + ys)[0] == xs[0]);
    }
}

/// The value of the cookie `name` in a `Cookie` header's text.
pub open spec fn cookie_value_spec(header: Seq<char>, name: Seq<char>) -> Option<Seq<char>> {
    cookie_lookup(split_on(header, ';'), name)
}

fn pair_value(part: &Vec<char>, name: &Vec<char>) -> (r: Option<Vec<char>>)
    ensures
        match r {
            Some(v) => cookie_pair_value(part@, name@) == Some(v@),
            None => cookie_pair_value(part@, name@) is None,
        },
{
    let t = trim_ws_chars(part);
    let i = find_first(&t, '=');
    if i >= t.len() {
        return None;
    }
    let key = sub_chars(&t, 0, i);
    assert(key@ =~= t@.take(i as int));
    if crate::text::strs::chars_eq(&key, name) {
        let v = sub_chars(&t, i + 1, t.len());
        assert(v@ =~= t@.skip(i + 1));
        Some(v)
    } else {
        None
    }
}

/// The value of the cookie `name` in the text of a `Cookie` header.
pub fn cookie_value(header: &str, name: &str) -> (r: Option<String>)
    ensures
        match r {
            Some(v) => cookie_value_spec(header@, name@) == Some(v@),
            None => cookie_value_spec(header@, name@) is None,
        },
{
    let parts = split_chars(&chars_of(header), ';');
    let name_chars = chars_of(name);
    assert(views(parts@).skip(0) =~= views(parts@));
    let mut i: usize = 0;
    while i < parts.len()
        invariant
            i <= parts.len(),
            views(parts@) == split_on(header@, ';'),
            name_chars@ == name@,
            cookie_lookup(views(parts@).skip(i as int), name@) == cookie_value_spec(header@, name@),
        decreases parts.len() - i,
    {
        let ghost rest = views(parts@).skip(i as int);
        assert(rest[0] == parts@[i as int]@);
        assert(rest.drop_first() =~= views(parts@).skip(i + 1));
        match pair_value(&parts[i], &name_chars) {
            Some(v) => {
                return Some(string_of(&v));
            },
            None => {},
        }
        i = i + 1;
    }
    assert(views(parts@).skip(i as int).len() == 0);
    None
}

// ---------------------------------------------------------------------------
// Response bodies
// ---------------------------------------------------------------------------

/// The answer to a client that asks about its connection.
pub struct ConnectionStatusResponse {
    pub auth_status: i32,
    pub message: String,
    pub poll_after_ms: u64,
    pub auth_token: Option<String>,
}

/// The message that goes with a connection's authorization status.
pub open spec fn connection_status_message(auth_status: i32) -> Seq<char> {
    if auth_status == 1 {
        "waiting for approval"@
    } else if auth_status == 2 {
        "approved"@
    } else if auth_status == 3 {
        "rejected"@
    } else {
        "unauthenticated"@
    }
}

/// The answer to a client that asks about its connection: its status, the
/// status's message, a poll delay of two seconds and no token.
pub fn connection_status_body(auth_status: i32) -> (r: ConnectionStatusResponse)
    ensures
        r.auth_status == auth_status,
        r.message@ == connection_status_message(auth_status),
        r.poll_after_ms == 2000,
        r.auth_token is None,
{
    let message = if auth_status == 1 {
        "waiting for approval"
    } else if auth_status == 2 {
        "approved"
    } else if auth_status == 3 {
        "rejected"
    } else {
        "unauthenticated"
    };
    ConnectionStatusResponse {
        auth_status,
        message: String::from_str(message),
        poll_after_ms: 2000,
        auth_token: None,
    }
}

/// A web access request as its client sees it.
pub struct AuthRequestResponse {
    pub id: String,
    pub auth_status: i32,
    pub scopes: Vec<String>,
    pub created_at: i64,
    pub expires_at: i64,
    pub decided_at: Option<i64>,
    pub session_expires_at: Option<i64>,
}

/// A web access request as its client sees it: without its session token,
/// client label, address or user agent.
pub fn auth_request_response(request: &WebAccessRequest) -> (r: AuthRequestResponse)
    ensures
        r.id@ == request.id@,
        r.auth_status == request.auth_status,
        r.scopes@.map_values(|s: String| s@) == request.scopes@.map_values(
            |s: WebAccessScope| scope_name(s),
        ),
        r.created_at == request.created_at,
        r.expires_at == request.expires_at,
        r.decided_at == request.decided_at,
        r.session_expires_at == request.session_expires_at,
{
    AuthRequestResponse {
        id: request.id.clone(),
        auth_status: request.auth_status,
        scopes: scope_names(request.scopes.as_slice()),
        created_at: request.created_at,
        expires_at: request.expires_at,
        decided_at: request.decided_at,
        session_expires_at: request.session_expires_at,
    }
}

/// One access scope as the authorization page offers it.
pub struct AuthScopeOption {
    pub name: String,
    pub label: &'static str,
    pub enabled: bool,
}

/// The scopes in the order the authorization page lists them.
pub open spec fn listed_scopes() -> Seq<WebAccessScope> {
    seq![
        WebAccessScope::Files,
        WebAccessScope::ClipboardList,
        WebAccessScope::ClipboardContent,
        WebAccessScope::Download,
    ]
}

/// The scopes that the authorization page offers, each with whether the
/// settings enable it.
pub fn auth_scope_options(config: &AppConfig) -> (r: Vec<AuthScopeOption>)
    ensures
        r@.len() == 4,
        forall|i: int|
            0 <= i < 4 ==> (#[trigger] r@[i]).name@ == scope_name(listed_scopes()[i])
                && r@[i].label@ == crate::web_auth::scope_label(listed_scopes()[i])
                && r@[i].enabled == scope_enabled(*config, listed_scopes()[i]),
{
    let scopes = [
        WebAccessScope::Files,
        WebAccessScope::ClipboardList,
        WebAccessScope::ClipboardContent,
        WebAccessScope::Download,
    ];
    let mut r: Vec<AuthScopeOption> = Vec::new();
    let mut i: usize = 0;
    while i < 4
        invariant
            i <= 4,
            scopes@ == listed_scopes(),
            r@.len() == i,
            forall|k: int|
                0 <= k < i ==> (#[trigger] r@[k]).name@ == scope_name(listed_scopes()[k])
                    && r@[k].label@ == crate::web_auth::scope_label(listed_scopes()[k])
                    && r@[k].enabled == scope_enabled(*config, listed_scopes()[k]),
        decreases 4 - i,
    {
        let scope = scopes[i];
        r.push(
            AuthScopeOption {
                name: String::from_str(scope.as_str()),
                label: scope.label(),
                enabled: is_scope_enabled(config, scope),
            },
        );
        i = i + 1;
    }
    r
}

// ---------------------------------------------------------------------------
// Byte ranges
// ---------------------------------------------------------------------------

/// The text that opens a byte range header.
pub open spec fn bytes_prefix() -> Seq<char> {
    seq!['b', 'y', 't', 'e', 's', '=']
}

/// The first range of a `Range` header's value, trimmed, if the value opens
/// with `bytes=`.
pub open spec fn first_range(range: Seq<char>) -> Option<Seq<char>> {
    if bytes_prefix().is_prefix_of(range) {
        Some(trim_ws(split_on(range.skip(6), ',')[0]))
    } else {
        None
    }
}

/// The two sides of the first range, split at its first `-`, where it has
/// one and is not blank.
pub open spec fn range_sides(range: Seq<char>) -> Option<(Seq<char>, Seq<char>)> {
    match first_range(range) {
        None => None,
        Some(first) => if first.len() == 0 {
            None
        } else {
            split_once_at(first, '-')
        },
    }
}

/// Whether reading the range takes the file's last index: with no header,
/// a valid non-zero suffix length, or a start with no end.
pub open spec fn range_reads_last(range: Option<Seq<char>>) -> bool {
    match range {
        None => true,
        Some(r) => match range_sides(r) {
            None => false,
            Some(sides) => if sides.0.len() == 0 {
                match parse_u64_spec(sides.1) {
                    Some(n) => n != 0,
                    None => false,
                }
            } else {
                parse_u64_spec(sides.0) is Some && sides.1.len() == 0
            },
        },
    }
}

/// The first and last byte that a range names in a file of `total` bytes,
/// before they are checked against the file: `-n` names the last `n` bytes
/// (all of them where `n` exceeds the size), `a-` names from `a` to the end,
/// `a-b` names from `a` to `b`.
pub open spec fn range_bounds(range: Seq<char>, total: int) -> Option<(int, int)> {
    match range_sides(range) {
        None => None,
        Some(sides) => if sides.0.len() == 0 {
            match parse_u64_spec(sides.1) {
                None => None,
                Some(n) => if n == 0 {
                    None
                } else if n >= total {
                    Some((0, total - 1))
                } else {
                    Some((total - n, total - 1))
                },
            }
        } else {
            match parse_u64_spec(sides.0) {
                None => None,
                Some(start) => if sides.1.len() == 0 {
                    Some((start as int, total - 1))
                } else {
                    match parse_u64_spec(sides.1) {
                        None => None,
                        Some(end) => Some((start as int, end as int)),
                    }
                },
            }
        },
    }
}

/// The bytes that a `Range` header asks for from a file of `total` bytes:
/// the whole file, not partial, without a header; the first range of the
/// header, partial, where it lies inside the file; else a refusal.
pub open spec fn parse_range_spec(range: Option<Seq<char>>, total: u64) -> Option<(u64, u64, bool)> {
    match range {
        None => Some((0, (total - 1) as u64, false)),
        Some(r) => match range_bounds(r, total as int) {
            None => None,
            Some(b) => if b.0 >= total || b.1 >= total || b.0 > b.1 {
                None
            } else {
                Some((b.0 as u64, b.1 as u64, true))
            },
        },
    }
}

/// The first and last byte, and whether the answer is partial, that a
/// `Range` header asks for from a file of `total_size` bytes.
pub fn parse_range(range: Option<&str>, total_size: u64) -> (r: Result<(u64, u64, bool), ()>)
    requires
        total_size > 0 || !range_reads_last(opt_str_view(range)),
    ensures
        match r {
            Ok(t) => parse_range_spec(opt_str_view(range), total_size) == Some(t),
            Err(_) => parse_range_spec(opt_str_view(range), total_size) is None,
        },
{
    let text = match range {
        None => {
            return Ok((0, total_size - 1, false));
        },
        Some(t) => t,
    };
    let chars = chars_of(text);
    if !(chars.len() >= 6 && chars[0] == 'b' && chars[1] == 'y' && chars[2] == 't' && chars[3]
        == 'e' && chars[4] == 's' && chars[5] == '=') {
        proof {
            if bytes_prefix().is_prefix_of(text@) {
                assert(text@.subrange(0, 6) =~= bytes_prefix());
                assert(text@[0] == 'b' && text@[1] == 'y' && text@[2] == 't');
                assert(text@[3] == 'e' && text@[4] == 's' && text@[5] == '=');
            }
        }
        return Err(());
    }
    assert(bytes_prefix() =~= text@.subrange(0, 6));
    let content = sub_chars(&chars, 6, chars.len());
    assert(content@ =~= text@.skip(6));
    let parts = split_chars(&content, ',');
    let first = trim_ws_chars(&parts[0]);
    assert(first@ == first_range(text@)->0);
    if first.len() == 0 {
        return Err(());
    }
    let dash = find_first(&first, '-');
    if dash >= first.len() {
        return Err(());
    }
    let left = sub_chars(&first, 0, dash);
    let right = sub_chars(&first, dash + 1, first.len());
    assert(left@ =~= first@.take(dash as int));
    assert(right@ =~= first@.skip(dash + 1));
    let (start, end): (u64, u64) = if left.len() == 0 {
        let suffix = match crate::text::num::parse_u64(&right) {
            Some(n) => n,
            None => {
                return Err(());
            },
        };
        if suffix == 0 {
            return Err(());
        }
        (total_size.saturating_sub(suffix), total_size - 1)
    } else {
        let start = match crate::text::num::parse_u64(&left) {
            Some(n) => n,
            None => {
                return Err(());
            },
        };
        let end = if right.len() == 0 {
            total_size - 1
        } else {
            match crate::text::num::parse_u64(&right) {
                Some(n) => n,
                None => {
                    return Err(());
                },
            }
        };
        (start, end)
    };
    if start >= total_size || end >= total_size || start > end {
        return Err(());
    }
    Ok((start, end, true))
}

/// The name a downloaded file is offered under: the file's name with `"`
/// replaced by `_`, or `download.bin` where the path has no name.
pub open spec fn download_name(name: Option<Seq<char>>) -> Seq<char> {
    match name {
        Some(n) => replace_char(n, '"', '_'),
        None => "download.bin"@,
    }
}

/// Whether a text can be an HTTP header value: no control character but a
/// tab.
pub open spec fn header_value_ok(s: Seq<char>) -> bool {
    forall|i: int| 0 <= i < s.len() ==> ((#[trigger] s[i]) as u32 >= 32 && s[i] as u32 != 127)
        || s[i] == '\t'
}

/// The `Content-Disposition` value of a download, where it is a valid header
/// value.
pub open spec fn disposition_spec(name: Option<Seq<char>>) -> Option<Seq<char>> {
    let v = "attachment; filename=\""@ + download_name(name) + "\""@;
    if header_value_ok(v) {
        Some(v)
    } else {
        None
    }
}

/// Why a request for a shared file is refused before the file is read.
#[derive(Debug, PartialEq, Eq)]
pub enum ShareFileRefusal {
    /// The path leaves the share, is absolute or invalid: status 403.
    Forbidden(String),
    /// The path cannot be resolved otherwise: status 404.
    NotFound(String),
    /// The path names no file: status 400.
    NotAFile,
}

impl ShareFileRefusal {
    /// The HTTP status of the refusal.
    pub fn status(&self) -> (s: u16)
        ensures
            s == match *self {
                ShareFileRefusal::Forbidden(_) => 403u16,
                ShareFileRefusal::NotFound(_) => 404u16,
                ShareFileRefusal::NotAFile => 400u16,
            },
    {
        match self {
            ShareFileRefusal::Forbidden(_) => 403,
            ShareFileRefusal::NotFound(_) => 404,
            ShareFileRefusal::NotAFile => 400,
        }
    }

    /// The message sent with the refusal: the resolver's, or that the path
    /// is not a file.
    pub fn message(&self) -> (m: String)
        ensures
            m@ == match *self {
                ShareFileRefusal::Forbidden(e) => e@,
                ShareFileRefusal::NotFound(e) => e@,
                ShareFileRefusal::NotAFile => "path is not a file"@,
            },
    {
        match self {
            ShareFileRefusal::Forbidden(e) => e.clone(),
            ShareFileRefusal::NotFound(e) => e.clone(),
            ShareFileRefusal::NotAFile => String::from_str("path is not a file"),
        }
    }
}

/// The file a request for a shared file reads, given how its path resolved
/// and whether the resolved path is a file: a resolver error that speaks of
/// a path outside the share, an absolute or an invalid path is forbidden,
/// any other is not found; a resolved path that is no file is refused; else
/// the resolved path is served.
pub fn share_file_target(resolved: Result<String, String>, is_file: bool) -> (r: Result<
    String,
    ShareFileRefusal,
>)
    ensures
        match resolved {
            Err(m) => if is_forbidden_path_error_spec(m@) {
                r == Err::<String, ShareFileRefusal>(ShareFileRefusal::Forbidden(m))
            } else {
                r == Err::<String, ShareFileRefusal>(ShareFileRefusal::NotFound(m))
            },
            Ok(p) => if is_file {
                r == Ok::<String, ShareFileRefusal>(p)
            } else {
                r == Err::<String, ShareFileRefusal>(ShareFileRefusal::NotAFile)
            },
        },
{
    match resolved {
        Err(m) => if is_forbidden_path_error(m.as_str()) {
            Err(ShareFileRefusal::Forbidden(m))
        } else {
            Err(ShareFileRefusal::NotFound(m))
        },
        Ok(p) => if is_file {
            Ok(p)
        } else {
            Err(ShareFileRefusal::NotAFile)
        },
    }
}

/// How the server answers a request for a shared file of `total` bytes.
pub enum FileResponse {
    /// The file is empty: an empty body, status 200.
    Empty,
    /// The range cannot be served: status 416, with this `Content-Range`.
    Unsatisfiable { range_header: String },
    /// `length` bytes of the file from `start`: status 206 where `partial`,
    /// else 200; the whole file is streamed where `whole_file`.
    Content {
        partial: bool,
        start: u64,
        length: u64,
        whole_file: bool,
        disposition: Option<String>,
        content_range: Option<String>,
    },
}

impl FileResponse {
    /// The HTTP status of the answer: 200 for an empty file or a whole-file
    /// answer, 206 for a partial one, 416 for a range that cannot be served.
    pub fn status(&self) -> (s: u16)
        ensures
            s == match *self {
                FileResponse::Empty => 200u16,
                FileResponse::Unsatisfiable { .. } => 416u16,
                FileResponse::Content { partial, .. } => if partial {
                    206u16
                } else {
                    200u16
                },
            },
    {
        match self {
            FileResponse::Empty => 200,
            FileResponse::Unsatisfiable { .. } => 416,
            FileResponse::Content { partial, .. } => if *partial {
                206
            } else {
                200
            },
        }
    }
}

/// The `Content-Range` of a partial answer.
pub open spec fn content_range_spec(start: u64, end: u64, total: u64) -> Seq<char> {
    "bytes "@ + nat_text(start as nat) + "-"@ + nat_text(end as nat) + "/"@ + nat_text(total as nat)
}

fn is_header_char(c: char) -> (b: bool)
    ensures
        b == ((c as u32 >= 32 && c as u32 != 127) || c == '\t'),
{
    let u = c as u32;
    (u >= 32 && u != 127) || c == '\t'
}

/// How to answer a request with the `Range` header `range` for the file
/// `name` of `total_size` bytes: empty for an empty file; refused where the
/// range cannot be served; else the bytes the range names, with the
/// download's name and, for a partial answer, its `Content-Range`.
pub fn file_response(name: Option<&str>, total_size: u64, range: Option<&str>) -> (r: FileResponse)
    ensures
        total_size == 0 ==> r is Empty,
        total_size > 0 && parse_range_spec(opt_str_view(range), total_size) is None ==> (r matches FileResponse::Unsatisfiable { range_header } && range_header@
            == "bytes */"@ + nat_text(total_size as nat)),
        total_size > 0 ==> match parse_range_spec(opt_str_view(range), total_size) {
            Some(t) => r matches FileResponse::Content {
                partial,
                start,
                length,
                whole_file,
                disposition,
                content_range,
            } && partial == t.2 && start == t.0 && length == t.1 - t.0 + 1 && whole_file == !(
            t.2 || length != total_size) && crate::access::opt_string_view(disposition)
                == disposition_spec(opt_str_view(name)) && crate::access::opt_string_view(
                content_range,
            ) == if t.2 {
                Some(content_range_spec(t.0, t.1, total_size))
            } else {
                None
            },
            None => true,
        },
{
    if total_size == 0 {
        return FileResponse::Empty;
    }
    let (start, end, partial) = match parse_range(range, total_size) {
        Ok(t) => t,
        Err(_) => {
            let mut v = String::from_str("bytes */");
            v.append(string_of(&u64_text(total_size)).as_str());
            proof {
                reveal_strlit("bytes */");
            }
            return FileResponse::Unsatisfiable { range_header: v };
        },
    };
    let length = end - start + 1;
    let base: Vec<char> = match name {
        Some(n) => replace_chars(&chars_of(n), '"', '_'),
        None => {
            proof {
                reveal_strlit("download.bin");
            }
            chars_of("download.bin")
        },
    };
    let mut d = chars_of("attachment; filename=\"");
    proof {
        reveal_strlit("attachment; filename=\"");
        reveal_strlit("\"");
    }
    push_all(&mut d, &base);
    d.push('"');
    assert(d@ =~= "attachment; filename=\""@ + download_name(opt_str_view(name)) + "\""@);
    let mut ok = true;
    let mut i: usize = 0;
    while i < d.len()
        invariant
            i <= d@.len(),
            ok == forall|k: int| 0 <= k < i ==> ((#[trigger] d@[k]) as u32 >= 32 && d@[k] as u32 != 127)
                || d@[k] == '\t',
        decreases d.len() - i,
    {
        if !is_header_char(d[i]) {
            ok = false;
        }
        i = i + 1;
    }
    let disposition = if ok {
        Some(string_of(&d))
    } else {
        None
    };
    let content_range = if partial {
        let mut v = String::from_str("bytes ");
        v.append(string_of(&u64_text(start)).as_str());
        v.append("-");
        v.append(string_of(&u64_text(end)).as_str());
        v.append("/");
        v.append(string_of(&u64_text(total_size)).as_str());
        Some(v)
    } else {
        None
    };
    FileResponse::Content {
        partial,
        start,
        length,
        whole_file: !(partial || length != total_size),
        disposition,
        content_range,
    }
}

/// A range that is served lies inside the file, first byte before last.
pub proof fn law_served_range_lies_in_file(range: Option<Seq<char>>, total: u64)
    requires
        total > 0 || !range_reads_last(range),
    ensures
        parse_range_spec(range, total) matches Some(t) ==> t.0 <= t.1 && t.1 < total,
        range is None ==> parse_range_spec(range, total) == Some((0u64, (total - 1) as u64, false)),
{
}

// ---------------------------------------------------------------------------
// Shared entries as listed to browsers and clients
// ---------------------------------------------------------------------------

/// A shared entry as a browser or a client lists it.
pub struct ShareItem {
    pub id: String,
    pub name: String,
    pub kind: i32,
    pub size: Option<i64>,
    pub updated_at: Option<i64>,
}

/// A shared entry as a browser lists it: named after its path's file name,
/// or its whole path where that has none.
pub fn share_to_item(row: crate::local_files::LocalFileRow) -> (r: ShareItem)
    ensures
        r.id@ == row.id@,
        r.name@ == match crate::record_files::file_name_of(row.path@) {
            Some(n) => n,
            None => row.path@,
        },
        r.kind == row.kind,
        r.size == row.size,
        r.updated_at == row.updated_at,
{
    let name = match crate::record_files::file_name(row.path.as_str()) {
        Some(n) => n,
        None => row.path,
    };
    ShareItem { id: row.id, name, kind: row.kind, size: row.size, updated_at: row.updated_at }
}

/// A shared entry as a client lists it (the same fields as for a browser).
pub fn remote_share_item(row: crate::local_files::LocalFileRow) -> (r: ShareItem)
    ensures
        r.id@ == row.id@,
        r.name@ == match crate::record_files::file_name_of(row.path@) {
            Some(n) => n,
            None => row.path@,
        },
        r.kind == row.kind,
        r.size == row.size,
        r.updated_at == row.updated_at,
{
    share_to_item(row)
}

/// A root that files are served from, and whether it is a directory.
pub struct ServedRoot {
    pub path: String,
    pub is_dir: bool,
}

/// Whether `target` may be served from `root`: inside it where it is a
/// directory, else the same path (component by component).
pub open spec fn allowed_by(target: Seq<char>, root: ServedRoot) -> bool {
    if root.is_dir {
        crate::paths::path_starts_with_spec(target, root.path@)
    } else {
        crate::paths::path_components(target) == crate::paths::path_components(root.path@)
    }
}

/// Whether `target` may be served from one of `roots`.
pub fn is_path_allowed(target: &str, roots: &[ServedRoot]) -> (r: bool)
    ensures
        r == exists|i: int| 0 <= i < roots@.len() && allowed_by(target@, #[trigger] roots@[i]),
{
    let mut i: usize = 0;
    while i < roots.len()
        invariant
            i <= roots@.len(),
            forall|k: int| 0 <= k < i ==> !allowed_by(target@, #[trigger] roots@[k]),
        decreases roots.len() - i,
    {
        let root = &roots[i];
        let ok = if root.is_dir {
            crate::paths::path_starts_with(target, root.path.as_str())
        } else {
            let a = crate::paths::path_components_of(&chars_of(target));
            let b = crate::paths::path_components_of(&chars_of(root.path.as_str()));
            same_components(&a, &b)
        };
        if ok {
            assert(allowed_by(target@, roots@[i as int]));
            return true;
        }
        i = i + 1;
    }
    false
}

fn same_components(a: &Vec<Vec<char>>, b: &Vec<Vec<char>>) -> (r: bool)
    ensures
        r == (views(a@) == views(b@)),
{
    if a.len() != b.len() {
        assert(views(a@).len() != views(b@).len());
        return false;
    }
    let mut i: usize = 0;
    while i < a.len()
        invariant
            i <= a.len() == b.len(),
            forall|k: int| 0 <= k < i ==> a@[k]@ == b@[k]@,
        decreases a.len() - i,
    {
        if !crate::text::strs::chars_eq(&a[i], &b[i]) {
            assert(views(a@)[i as int] != views(b@)[i as int]);
            return false;
        }
        i = i + 1;
    }
    assert(views(a@) =~= views(b@));
    true
}

} // verus!
