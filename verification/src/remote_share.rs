use vstd::prelude::*;

use crate::models::AppError;
use crate::paths::{
    cur_part, has_parent_piece, is_cur_piece, is_skipped_part, join_path, join_path_chars, keep_pieces, kept_parts,
    parent_part, is_parent_piece,
};
use crate::text::strs::{
    chars_eq, chars_of, join_chars, join_with, lemma_views_push, lower_ascii, lower_ascii_chars,
    push_all, replace_char, replace_chars, split_chars, split_on, starts_with, string_of,
    sub_chars, trim_chars, trim_end_chars, trim_end_in, trim_in, trim_ws, trim_ws_chars, views,
    CharSet, contains_char, is_ws,
};

verus! {

broadcast use vstd::string::group_string_axioms;

// ---------------------------------------------------------------------------
// Relative paths inside a remote share
// ---------------------------------------------------------------------------

/// Each piece, trimmed.
pub open spec fn trimmed_pieces(parts: Seq<Seq<char>>) -> Seq<Seq<char>> {
    parts.map_values(|p: Seq<char>| trim_ws(p))
}

/// The canonical form of a relative path inside a remote share: trimmed,
/// with `/` for `\\`, without empty, blank or `.` pieces, `.` for the root;
/// `None` where a piece is `..`.
pub open spec fn remote_relative_path_spec(path: Seq<char>) -> Option<Seq<char>> {
    let value = replace_char(trim_ws(path), '\\', '/');
    if value.len() == 0 || value == cur_part() {
        Some(cur_part())
    } else {
        let inner = trim_in(value, CharSet::One('/'));
        if inner.len() == 0 {
            Some(cur_part())
        } else {
            let parts = kept_parts(trimmed_pieces(split_on(inner, '/')));
            if parts.contains(parent_part()) {
                None
            } else if parts.len() == 0 {
                Some(cur_part())
            } else {
                Some(join_with(parts, seq!['/']))
            }
        }
    }
}

/// Whether a remote path, trimmed and with `/` for each backslash, has a piece
/// between `/`s that is `..` once trimmed.
pub open spec fn names_parent_piece(path: Seq<char>) -> bool {
    let pieces = split_on(replace_char(trim_ws(path), '\\', '/'), '/');
    exists|i: int| 0 <= i < pieces.len() && trim_ws(#[trigger] pieces[i]) == parent_part()
}

/// Every piece of `x` split on `/` is empty or a piece of `y`, and every
/// piece of `y` is one of `x`.
pub open spec fn pieces_related(x: Seq<char>, y: Seq<char>) -> bool {
    &&& forall|p: Seq<char>|
        #[trigger] split_on(x, '/').contains(p) ==> p.len() == 0 || split_on(y, '/').contains(p)
    &&& forall|p: Seq<char>| #[trigger] split_on(y, '/').contains(p) ==> split_on(x, '/').contains(p)
}

proof fn lemma_pieces_trim_start(s: Seq<char>)
    ensures
        pieces_related(s, crate::text::strs::trim_start_in(s, CharSet::One('/'))),
    decreases s.len(),
{
    let ts = crate::text::strs::trim_start_in(s, CharSet::One('/'));
    if s.len() > 0 && s[0] == '/' {
        let rest = s.drop_first();
        lemma_pieces_trim_start(rest);
        let sp = split_on(s, '/');
        assert(sp == seq![Seq::<char>::empty()] + split_on(rest, '/'));
        assert forall|p: Seq<char>| #[trigger] sp.contains(p) implies p.len() == 0 || split_on(
            ts,
            '/',
        ).contains(p) by {
            let k = choose|k: int| 0 <= k < sp.len() && sp[k] == p;
            if k > 0 {
                assert(split_on(rest, '/')[k - 1] == p);
                assert(split_on(rest, '/').contains(p));
            }
        }
        assert forall|p: Seq<char>| #[trigger] split_on(ts, '/').contains(p) implies sp.contains(p) by {
            assert(split_on(rest, '/').contains(p));
            let k = choose|k: int| 0 <= k < split_on(rest, '/').len() && split_on(rest, '/')[k] == p;
            assert(sp[k + 1] == p);
        }
    }
}

proof fn lemma_pieces_trim_end(s: Seq<char>)
    ensures
        pieces_related(s, trim_end_in(s, CharSet::One('/'))),
    decreases s.len(),
{
    let te = trim_end_in(s, CharSet::One('/'));
    if s.len() > 0 && s.last() == '/' {
        let init = s.drop_last();
        lemma_pieces_trim_end(init);
        assert(s =~= init + seq!['/'] + Seq::<char>::empty());
        crate::paths::lemma_split_concat(init, Seq::<char>::empty(), '/');
        assert(split_on(Seq::<char>::empty(), '/') =~= seq![Seq::<char>::empty()]);
        let sp = split_on(s, '/');
        let si = split_on(init, '/');
        assert(sp == si + seq![Seq::<char>::empty()]);
        assert forall|p: Seq<char>| #[trigger] sp.contains(p) implies p.len() == 0 || split_on(
            te,
            '/',
        ).contains(p) by {
            let k = choose|k: int| 0 <= k < sp.len() && sp[k] == p;
            if k < si.len() {
                assert(si[k] == p);
                assert(si.contains(p));
            }
        }
        assert forall|p: Seq<char>| #[trigger] split_on(te, '/').contains(p) implies sp.contains(p) by {
            assert(si.contains(p));
            let k = choose|k: int| 0 <= k < si.len() && si[k] == p;
            assert(sp[k] == p);
        }
    }
}

proof fn lemma_kept_keeps(parts: Seq<Seq<char>>, x: Seq<char>)
    requires
        parts.contains(x),
        !is_skipped_part(x),
    ensures
        kept_parts(parts).contains(x),
    decreases parts.len(),
{
    let init = parts.drop_last();
    if parts.last() == x {
        let k = kept_parts(init).push(x);
        assert(k[k.len() - 1] == x);
    } else {
        let i = choose|i: int| 0 <= i < parts.len() && parts[i] == x;
        assert(i < parts.len() - 1);
        assert(init[i] == x);
        lemma_kept_keeps(init, x);
        let ki = kept_parts(init);
        let j = choose|j: int| 0 <= j < ki.len() && ki[j] == x;
        if !is_skipped_part(parts.last()) {
            assert(ki.push(parts.last())[j] == x);
        }
    }
}

/// A remote path is refused exactly where one of its pieces between `/`
/// (or backslash) is `..` once trimmed.
pub proof fn law_remote_path_refused_iff_parent_piece(path: Seq<char>)
    ensures
        remote_relative_path_spec(path) is None <==> names_parent_piece(path),
{
    let ws = CharSet::Whitespace;
    let value = replace_char(trim_ws(path), '\\', '/');
    let sv = split_on(value, '/');
    assert(trim_ws(Seq::<char>::empty()) =~= Seq::<char>::empty());
    if value.len() == 0 {
        assert(sv =~= seq![Seq::<char>::empty()]);
        assert(!names_parent_piece(path)) by {
            if names_parent_piece(path) {
                let i = choose|i: int| 0 <= i < sv.len() && trim_ws(#[trigger] sv[i]) == parent_part();
                assert(sv[i] =~= Seq::<char>::empty());
            }
        }
    } else if value == cur_part() {
        assert(split_on(Seq::<char>::empty(), '/') =~= seq![Seq::<char>::empty()]);
        assert(value.drop_first() =~= Seq::<char>::empty());
        assert(sv =~= seq![cur_part()]);
        crate::text::strs::lemma_trim_keeps(cur_part(), ws);
        assert(!names_parent_piece(path)) by {
            if names_parent_piece(path) {
                let i = choose|i: int| 0 <= i < sv.len() && trim_ws(#[trigger] sv[i]) == parent_part();
                assert(sv[i] == cur_part());
            }
        }
    } else {
        let slash = CharSet::One('/');
        let ts = crate::text::strs::trim_start_in(value, slash);
        let inner = trim_in(value, slash);
        lemma_pieces_trim_start(value);
        lemma_pieces_trim_end(ts);
        let si = split_on(inner, '/');
        let tp = trimmed_pieces(si);
        // A `..` piece of the value is a piece of its inner part, and back.
        assert(names_parent_piece(path) <==> tp.contains(parent_part())) by {
            if names_parent_piece(path) {
                let i = choose|i: int| 0 <= i < sv.len() && trim_ws(#[trigger] sv[i]) == parent_part();
                let p = sv[i];
                assert(sv.contains(p));
                assert(p.len() != 0);
                assert(split_on(ts, '/').contains(p));
                assert(p.len() != 0);
                assert(si.contains(p));
                let k = choose|k: int| 0 <= k < si.len() && si[k] == p;
                assert(tp[k] == parent_part());
            }
            if tp.contains(parent_part()) {
                let k = choose|k: int| 0 <= k < tp.len() && tp[k] == parent_part();
                let p = si[k];
                assert(si.contains(p));
                assert(split_on(ts, '/').contains(p));
                assert(sv.contains(p));
                let i = choose|i: int| 0 <= i < sv.len() && sv[i] == p;
                assert(trim_ws(sv[i]) == parent_part());
            }
        }
        if inner.len() == 0 {
            assert(si =~= seq![Seq::<char>::empty()]);
            assert(!tp.contains(parent_part())) by {
                if tp.contains(parent_part()) {
                    let k = choose|k: int| 0 <= k < tp.len() && tp[k] == parent_part();
                    assert(tp[k] == trim_ws(si[k]));
                }
            }
        } else {
            crate::paths::lemma_kept_sub(tp);
            if tp.contains(parent_part()) {
                lemma_kept_keeps(tp, parent_part());
            }
        }
    }
}

/// The canonical form of a remote path is its own canonical form: paths
/// that were normalized once compare equal as they are.
pub proof fn law_canonical_remote_path_is_fixed(path: Seq<char>)
    requires
        remote_relative_path_spec(path) is Some,
    ensures
        remote_relative_path_spec(remote_relative_path_spec(path)->Some_0) == remote_relative_path_spec(
            path,
        ),
{
    let c = remote_relative_path_spec(path)->Some_0;
    let ws = CharSet::Whitespace;
    if c == cur_part() {
        crate::text::strs::lemma_trim_keeps(cur_part(), ws);
        assert(replace_char(cur_part(), '\\', '/') =~= cur_part());
    } else {
        let value = replace_char(trim_ws(path), '\\', '/');
        let inner = trim_in(value, CharSet::One('/'));
        let pieces = split_on(inner, '/');
        let tp = trimmed_pieces(pieces);
        let parts = kept_parts(tp);
        assert(!value.contains('\\')) by {
            if value.contains('\\') {
                let k = choose|k: int| 0 <= k < value.len() && value[k] == '\\';
            }
        }
        crate::text::strs::lemma_trim_lacks(value, CharSet::One('/'), '\\');
        crate::text::strs::lemma_split_lacks(inner, '/', '\\');
        assert forall|i: int| 0 <= i < tp.len() implies {
            &&& !(#[trigger] tp[i]).contains('/')
            &&& !tp[i].contains('\\')
            &&& trim_ws(tp[i]) == tp[i]
            &&& (tp[i].len() > 0 ==> !is_ws(tp[i][0]) && !is_ws(tp[i].last()))
        } by {
            assert(tp[i] == trim_ws(pieces[i]));
            crate::text::strs::lemma_trim_lacks(pieces[i], ws, '/');
            crate::text::strs::lemma_trim_lacks(pieces[i], ws, '\\');
            crate::text::strs::lemma_trim_twice(pieces[i], ws);
        }
        crate::paths::lemma_kept_sub(tp);
        assert forall|i: int| 0 <= i < parts.len() implies {
            &&& !is_skipped_part(#[trigger] parts[i])
            &&& !parts[i].contains('/')
            &&& !parts[i].contains('\\')
            &&& trim_ws(parts[i]) == parts[i]
            &&& !is_ws(parts[i][0])
            &&& !is_ws(parts[i].last())
        } by {
            assert(tp.contains(parts[i]));
            let j = choose|j: int| 0 <= j < tp.len() && tp[j] == parts[i];
            assert(!tp[j].contains('/'));
        }
        assert(crate::paths::plain_parts(parts));
        assert(parts.len() > 0);
        crate::text::strs::lemma_join_shape(parts, seq!['/'], '\\');
        assert(!seq!['/'].contains('\\')) by {
            if seq!['/'].contains('\\') {
                let k = choose|k: int| 0 <= k < 1 && seq!['/'][k] == '\\';
            }
        }
        assert(c == join_with(parts, seq!['/']));
        assert(!is_ws(c[0]) && !is_ws(c.last()));
        crate::text::strs::lemma_trim_keeps(c, ws);
        assert(replace_char(c, '\\', '/') =~= c) by {
            assert forall|k: int| 0 <= k < c.len() implies c[k] != '\\' by {
                if c[k] == '\\' {
                    assert(c.contains('\\'));
                }
            }
        }
        assert(c[0] != '/') by {
            assert(parts[0].contains(parts[0][0]));
        }
        assert(c.last() != '/') by {
            assert(parts[parts.len() - 1] == parts.last());
            assert(parts.last().contains(parts.last()[parts.last().len() - 1]));
        }
        crate::text::strs::lemma_trim_keeps(c, CharSet::One('/'));
        assert(c != cur_part()) by {
            if parts.len() == 1 {
                assert(c == parts[0]);
            } else {
                assert(join_with(parts, seq!['/']) == join_with(parts.drop_last(), seq!['/'])
                    + seq!['/'] + parts.last());
            }
        }
        crate::paths::lemma_split_join(parts);
        assert(trimmed_pieces(parts) =~= parts);
        crate::paths::lemma_kept_plain(parts);
    }
}

/// The message of a remote path that leaves its share.
pub open spec fn invalid_remote_path_message() -> Seq<char> {
    "远程路径不合法"@
}

fn trim_pieces(parts: &Vec<Vec<char>>) -> (r: Vec<Vec<char>>)
    ensures
        views(r@) == trimmed_pieces(views(parts@)),
{
    let mut out: Vec<Vec<char>> = Vec::new();
    let mut i: usize = 0;
    while i < parts.len()
        invariant
            i <= parts.len(),
            views(out@) == trimmed_pieces(views(parts@)).take(i as int),
        decreases parts.len() - i,
    {
        let ghost before = out@;
        let t = trim_ws_chars(&parts[i]);
        out.push(t);
        proof {
            lemma_views_push(before, t);
        }
        assert(trimmed_pieces(views(parts@)).take(i + 1) =~= trimmed_pieces(views(parts@)).take(
            i as int,
        ).push(trim_ws(parts@[i as int]@)));
        i = i + 1;
    }
    assert(trimmed_pieces(views(parts@)).take(parts.len() as int) =~= trimmed_pieces(
        views(parts@),
    ));
    out
}

fn dot_chars() -> (r: Vec<char>)
    ensures
        r@ == cur_part(),
{
    let r = vec!['.'];
    assert(r@ =~= cur_part());
    r
}

fn slash_chars() -> (r: Vec<char>)
    ensures
        r@ == seq!['/'],
{
    let r = vec!['/'];
    assert(r@ =~= seq!['/']);
    r
}

/// The canonical form of a relative path inside a remote share, if it stays
/// inside the share.
pub(crate) fn normalize_remote_chars(path: &Vec<char>) -> (r: Option<Vec<char>>)
    ensures
        match r {
            Some(v) => remote_relative_path_spec(path@) == Some(v@),
            None => remote_relative_path_spec(path@) is None,
        },
{
    let value = replace_chars(&trim_ws_chars(path), '\\', '/');
    if value.len() == 0 || is_cur_piece(&value) {
        return Some(dot_chars());
    }
    let inner = trim_chars(&value, CharSet::One('/'));
    if inner.len() == 0 {
        return Some(dot_chars());
    }
    let parts = keep_pieces(&trim_pieces(&split_chars(&inner, '/')));
    if has_parent_piece(&parts) {
        return None;
    }
    if parts.len() == 0 {
        return Some(dot_chars());
    }
    Some(join_chars(&parts, &slash_chars()))
}

/// The canonical form of a relative path inside a remote share; an invalid
/// input error where a piece is `..`.
pub fn normalize_remote_relative_path(path: &str) -> (r: Result<String, AppError>)
    ensures
        match r {
            Ok(p) => remote_relative_path_spec(path@) == Some(p@),
            Err(e) => remote_relative_path_spec(path@) is None && (e matches AppError::InvalidInput(
                m,
            ) && m@ == invalid_remote_path_message()),
        },
{
    match normalize_remote_chars(&chars_of(path)) {
        Some(v) => Ok(string_of(&v)),
        None => Err(AppError::InvalidInput(String::from_str("远程路径不合法"))),
    }
}

/// The number of pieces of a path that are not blank.
pub open spec fn nonblank_count(parts: Seq<Seq<char>>) -> nat
    decreases parts.len(),
{
    if parts.len() == 0 {
        0
    } else {
        nonblank_count(parts.drop_last()) + if trim_ws(parts.last()).len() > 0 {
            1nat
        } else {
            0nat
        }
    }
}

/// The depth of a relative path inside a remote share: 0 for the root or a
/// blank path, else the number of its pieces that are not blank.
pub open spec fn remote_path_depth_spec(path: Seq<char>) -> nat {
    if path == cur_part() || trim_ws(path).len() == 0 {
        0
    } else {
        nonblank_count(split_on(path, '/'))
    }
}

/// The depth of a relative path inside a remote share.
pub fn remote_path_depth(path: &str) -> (n: usize)
    ensures
        n == remote_path_depth_spec(path@),
{
    let chars = chars_of(path);
    if is_cur_piece(&chars) || trim_ws_chars(&chars).len() == 0 {
        return 0;
    }
    let parts = split_chars(&chars, '/');
    let mut count: usize = 0;
    let mut i: usize = 0;
    while i < parts.len()
        invariant
            i <= parts.len(),
            count <= i,
            count == nonblank_count(views(parts@).take(i as int)),
        decreases parts.len() - i,
    {
        assert(views(parts@).take(i + 1).drop_last() =~= views(parts@).take(i as int));
        assert(views(parts@).take(i + 1).last() == parts@[i as int]@);
        if trim_ws_chars(&parts[i]).len() > 0 {
            count = count + 1;
        }
        i = i + 1;
    }
    assert(views(parts@).take(parts.len() as int) =~= views(parts@));
    count
}

/// A path's canonical form, or the root where it is invalid.
pub open spec fn canonical_or_root(path: Seq<char>) -> Seq<char> {
    match remote_relative_path_spec(path) {
        Some(p) => p,
        None => cur_part(),
    }
}

fn canonical_or_root_chars(path: &str) -> (r: Vec<char>)
    ensures
        r@ == canonical_or_root(path@),
{
    match normalize_remote_chars(&chars_of(path)) {
        Some(v) => v,
        None => dot_chars(),
    }
}

/// The text that every path strictly under `parent` begins with.
pub open spec fn child_prefix(parent: Seq<char>) -> Seq<char> {
    trim_end_in(parent, CharSet::One('/')) + seq!['/']
}

fn child_prefix_chars(parent: &Vec<char>) -> (r: Vec<char>)
    ensures
        r@ == child_prefix(parent@),
{
    let mut p = trim_end_chars(parent, CharSet::One('/'));
    p.push('/');
    p
}

/// Whether `child` is an entry directly inside the directory `parent` of a
/// remote share (both read in canonical form, the root for invalid ones).
pub open spec fn is_direct_child_spec(parent: Seq<char>, child: Seq<char>) -> bool {
    let p = canonical_or_root(parent);
    let c = canonical_or_root(child);
    if p == cur_part() {
        c != cur_part() && !c.contains('/')
    } else {
        let prefix = child_prefix(p);
        prefix.is_prefix_of(c) && c.skip(prefix.len() as int).len() > 0 && !c.skip(
            prefix.len() as int,
        ).contains('/')
    }
}

/// Whether `child` is an entry directly inside the directory `parent`.
pub fn is_direct_remote_child(parent: &str, child: &str) -> (r: bool)
    ensures
        r == is_direct_child_spec(parent@, child@),
{
    let p = canonical_or_root_chars(parent);
    let c = canonical_or_root_chars(child);
    if is_cur_piece(&p) {
        return !is_cur_piece(&c) && !contains_char(&c, '/');
    }
    let prefix = child_prefix_chars(&p);
    if !starts_with(&c, &prefix) {
        return false;
    }
    let rest = sub_chars(&c, prefix.len(), c.len());
    assert(rest@ =~= c@.skip(prefix@.len() as int));
    rest.len() > 0 && !contains_char(&rest, '/')
}

/// Whether the cached entry `child` lies in the directory `parent` or is it.
pub open spec fn row_in_scope_spec(parent: Seq<char>, child: Seq<char>) -> bool {
    let p = canonical_or_root(parent);
    let c = canonical_or_root(child);
    p == cur_part() || c == p || child_prefix(p).is_prefix_of(c)
}

/// Whether the cached entry `child` lies in the directory `parent` or is it.
pub fn remote_cache_row_in_scope(parent: &str, child: &str) -> (r: bool)
    ensures
        r == row_in_scope_spec(parent@, child@),
{
    let p = canonical_or_root_chars(parent);
    let c = canonical_or_root_chars(child);
    if is_cur_piece(&p) {
        return true;
    }
    chars_eq(&c, &p) || starts_with(&c, &child_prefix_chars(&p))
}

/// Whether an entry is the root of what the user chose to download: its
/// canonical path equals the chosen root's (the entry's path as given where
/// no root was chosen). `Err` carries the message of an invalid path.
pub open spec fn validates_destination_root_spec(
    relative_path: Seq<char>,
    root_relative_path: Option<Seq<char>>,
) -> Result<bool, Seq<char>> {
    let root = match root_relative_path {
        Some(r) => remote_relative_path_spec(r),
        None => Some(relative_path),
    };
    match root {
        None => Err(invalid_remote_path_message()),
        Some(rp) => match remote_relative_path_spec(relative_path) {
            None => Err(invalid_remote_path_message()),
            Some(p) => Ok(p == rp),
        },
    }
}

/// Whether an entry is the root of what the user chose to download.
pub fn should_validate_destination_root(
    relative_path: &str,
    destination_root_relative_path: Option<&str>,
) -> (r: Result<bool, AppError>)
    ensures
        match r {
            Ok(b) => validates_destination_root_spec(
                relative_path@,
                crate::text::strs::opt_str_view(destination_root_relative_path),
            ) == Ok::<bool, Seq<char>>(b),
            Err(e) => validates_destination_root_spec(
                relative_path@,
                crate::text::strs::opt_str_view(destination_root_relative_path),
            ) == Err::<bool, Seq<char>>(invalid_remote_path_message()) && (e matches AppError::InvalidInput(m)
                && m@ == invalid_remote_path_message()),
        },
{
    let root: Vec<char> = match destination_root_relative_path {
        Some(d) => match normalize_remote_chars(&chars_of(d)) {
            Some(v) => v,
            None => {
                return Err(AppError::InvalidInput(String::from_str("远程路径不合法")));
            },
        },
        None => chars_of(relative_path),
    };
    match normalize_remote_chars(&chars_of(relative_path)) {
        Some(p) => Ok(chars_eq(&p, &root)),
        None => Err(AppError::InvalidInput(String::from_str("远程路径不合法"))),
    }
}

// ---------------------------------------------------------------------------
// Safe file names
// ---------------------------------------------------------------------------

/// A control character (general category `Cc`), as `char::is_control` tests.
pub open spec fn is_control(c: char) -> bool {
    (c as u32) < 0x20 || (0x7f <= (c as u32) && (c as u32) <= 0x9f)
}

/// A character that a file name cannot hold on some system.
pub open spec fn is_unsafe_name_char(c: char) -> bool {
    is_control(c) || c == '<' || c == '>' || c == ':' || c == '"' || c == '/' || c == '\\' || c
        == '|' || c == '?' || c == '*'
}

/// `s` with every unsafe character replaced by `_`.
pub open spec fn replace_unsafe(s: Seq<char>) -> Seq<char> {
    Seq::new(s.len(), |i: int| if is_unsafe_name_char(s[i]) { '_' } else { s[i] })
}

/// A file name made from `value`: trimmed, unsafe characters replaced by
/// `_`, trimmed again, without trailing spaces and dots; `fallback` where
/// nothing is left.
pub open spec fn safe_segment(value: Seq<char>, fallback: Seq<char>) -> Seq<char> {
    let out = trim_end_in(trim_ws(replace_unsafe(trim_ws(value))), CharSet::SpaceOrDot);
    if out.len() == 0 {
        fallback
    } else {
        out
    }
}

/// A safe file name is one plain path component: not empty, without `/` or
/// `\\`, and not ending with a dot or a space, so never `.` or `..`
/// (where the fallback is such a name too).
pub proof fn law_safe_segment_is_one_component(value: Seq<char>, fallback: Seq<char>)
    requires
        fallback.len() > 0,
        !fallback.contains('/'),
        !fallback.contains('\\'),
        fallback.last() != '.' && fallback.last() != ' ',
    ensures
        ({
            let s = safe_segment(value, fallback);
            &&& s.len() > 0
            &&& !s.contains('/')
            &&& !s.contains('\\')
            &&& s.last() != '.' && s.last() != ' '
        }),
{
    let r = replace_unsafe(trim_ws(value));
    let t = trim_ws(r);
    let out = trim_end_in(t, CharSet::SpaceOrDot);
    assert(!r.contains('/') && !r.contains('\\')) by {
        if r.contains('/') {
            let k = choose|k: int| 0 <= k < r.len() && r[k] == '/';
        }
        if r.contains('\\') {
            let k = choose|k: int| 0 <= k < r.len() && r[k] == '\\';
        }
    }
    crate::text::strs::lemma_trim_lacks(r, CharSet::Whitespace, '/');
    crate::text::strs::lemma_trim_lacks(r, CharSet::Whitespace, '\\');
    crate::text::strs::lemma_trim_end_shape(t, CharSet::SpaceOrDot);
    let j = choose|j: int| 0 <= j <= t.len() && out == t.subrange(0, j);
    assert(!out.contains('/') && !out.contains('\\')) by {
        if out.contains('/') {
            let k = choose|k: int| 0 <= k < out.len() && out[k] == '/';
            assert(t[k] == '/');
            assert(t.contains('/'));
        }
        if out.contains('\\') {
            let k = choose|k: int| 0 <= k < out.len() && out[k] == '\\';
            assert(t[k] == '\\');
            assert(t.contains('\\'));
        }
    }
}

fn is_unsafe_char_exec(c: char) -> (r: bool)
    ensures
        r == is_unsafe_name_char(c),
{
    let u = c as u32;
    u < 0x20 || (0x7f <= u && u <= 0x9f) || c == '<' || c == '>' || c == ':' || c == '"' || c
        == '/' || c == '\\' || c == '|' || c == '?' || c == '*'
}

fn safe_segment_chars(value: &Vec<char>, fallback: &Vec<char>) -> (r: Vec<char>)
    ensures
        r@ == safe_segment(value@, fallback@),
{
    let t = trim_ws_chars(value);
    let mut replaced: Vec<char> = Vec::new();
    let mut i: usize = 0;
    while i < t.len()
        invariant
            i <= t.len(),
            replaced@ == replace_unsafe(t@).take(i as int),
        decreases t.len() - i,
    {
        let c = t[i];
        if is_unsafe_char_exec(c) {
            replaced.push('_');
        } else {
            replaced.push(c);
        }
        assert(replace_unsafe(t@).take(i + 1) =~= replace_unsafe(t@).take(i as int).push(
            replace_unsafe(t@)[i as int],
        ));
        i = i + 1;
    }
    assert(replace_unsafe(t@).take(t.len() as int) =~= replace_unsafe(t@));
    let out = trim_end_chars(&trim_ws_chars(&replaced), CharSet::SpaceOrDot);
    if out.len() == 0 {
        fallback.clone()
    } else {
        out
    }
}

/// A file name made from `value`, or `fallback` where nothing is left.
pub fn safe_path_segment(value: &str, fallback: &str) -> (r: String)
    ensures
        r@ == safe_segment(value@, fallback@),
{
    string_of(&safe_segment_chars(&chars_of(value), &chars_of(fallback)))
}

/// `target` with the pieces of a relative path appended as safe file names,
/// skipping blank and `.` pieces, up to the first `..` piece; and whether
/// there was none.
pub open spec fn push_safe_parts(target: Seq<char>, parts: Seq<Seq<char>>) -> (Seq<char>, bool)
    decreases parts.len(),
{
    if parts.len() == 0 {
        (target, true)
    } else {
        let p = trim_ws(parts[0]);
        if p.len() == 0 || p == cur_part() {
            push_safe_parts(target, parts.drop_first())
        } else if p == parent_part() {
            (target, false)
        } else {
            push_safe_parts(join_path(target, safe_segment(p, "item"@)), parts.drop_first())
        }
    }
}

fn append_safe_chars(target: &mut Vec<char>, relative_path: &Vec<char>) -> (ok: bool)
    ensures
        (final(target)@, ok) == push_safe_parts(old(target)@, split_on(relative_path@, '/')),
{
    let parts = split_chars(relative_path, '/');
    let item = chars_of("item");
    let ghost goal = push_safe_parts(old(target)@, split_on(relative_path@, '/'));
    assert(views(parts@).skip(0) =~= views(parts@));
    let mut cur: Vec<char> = chars_of(&string_of(target));
    let mut ok = true;
    let mut i: usize = 0;
    while i < parts.len() && ok
        invariant
            i <= parts.len(),
            item@ == "item"@,
            ok ==> push_safe_parts(cur@, views(parts@).skip(i as int)) == goal,
            !ok ==> (cur@, false) == goal,
        decreases parts.len() - i,
    {
        let ghost rest = views(parts@).skip(i as int);
        assert(rest[0] == parts@[i as int]@);
        assert(rest.drop_first() =~= views(parts@).skip(i + 1));
        let p = trim_ws_chars(&parts[i]);
        if p.len() == 0 || is_cur_piece(&p) {
        } else if is_parent_piece(&p) {
            ok = false;
        } else {
            let seg = safe_segment_chars(&p, &item);
            cur = join_path_chars(&cur, &seg);
        }
        i = i + 1;
    }
    if ok {
        assert(views(parts@).skip(i as int).len() == 0);
    }
    *target = cur;
    ok
}

/// Appends the pieces of a relative path to `target` as safe file names; an
/// invalid input error at the first `..` piece, with the pieces before it
/// appended.
pub fn append_safe_relative_path(target: &mut String, relative_path: &str) -> (r: Result<
    (),
    AppError,
>)
    ensures
        final(target)@ == push_safe_parts(old(target)@, split_on(relative_path@, '/')).0,
        r is Ok <==> push_safe_parts(old(target)@, split_on(relative_path@, '/')).1,
        r matches Err(e) ==> e matches AppError::InvalidInput(m) && m@
            == invalid_remote_path_message(),
{
    let mut t = chars_of(target.as_str());
    let ok = append_safe_chars(&mut t, &chars_of(relative_path));
    *target = string_of(&t);
    if ok {
        Ok(())
    } else {
        Err(AppError::InvalidInput(String::from_str("远程路径不合法")))
    }
}

/// The message of a download target outside the chosen remote directory.
pub open spec fn outside_destination_message() -> Seq<char> {
    "目标路径不在选择的远程目录内"@
}

/// Where a downloaded entry goes under the folder the user chose: the folder
/// itself for the chosen directory, a safe file name in it for a chosen
/// file, else the entry's path below the chosen root, piece by piece.
pub open spec fn destination_path_spec(
    destination_root: Seq<char>,
    relative_path: Seq<char>,
    item_name: Seq<char>,
    is_dir: bool,
    root_relative_path: Option<Seq<char>>,
) -> Result<Seq<char>, Seq<char>> {
    let root_rel = match root_relative_path {
        Some(r) => remote_relative_path_spec(r),
        None => Some(relative_path),
    };
    match root_rel {
        None => Err(invalid_remote_path_message()),
        Some(rr) => match remote_relative_path_spec(relative_path) {
            None => Err(invalid_remote_path_message()),
            Some(rel) => if rel == rr {
                if is_dir {
                    Ok(destination_root)
                } else {
                    Ok(join_path(destination_root, safe_segment(item_name, "download.bin"@)))
                }
            } else {
                let tail = if rr != cur_part() {
                    if child_prefix(rr).is_prefix_of(rel) {
                        Some(rel.skip(child_prefix(rr).len() as int))
                    } else {
                        None
                    }
                } else {
                    Some(rel)
                };
                match tail {
                    None => Err(outside_destination_message()),
                    Some(t) => {
                        let pushed = push_safe_parts(destination_root, split_on(t, '/'));
                        if pushed.1 {
                            Ok(pushed.0)
                        } else {
                            Err(invalid_remote_path_message())
                        }
                    },
                }
            },
        },
    }
}

/// Where a downloaded entry goes under the folder the user chose.
pub fn destination_cache_path(
    destination_root: &str,
    relative_path: &str,
    item_name: &str,
    is_dir: bool,
    destination_root_relative_path: Option<&str>,
) -> (r: Result<String, AppError>)
    ensures
        match r {
            Ok(p) => destination_path_spec(
                destination_root@,
                relative_path@,
                item_name@,
                is_dir,
                crate::text::strs::opt_str_view(destination_root_relative_path),
            ) == Ok::<Seq<char>, Seq<char>>(p@),
            Err(e) => e matches AppError::InvalidInput(m) && destination_path_spec(
                destination_root@,
                relative_path@,
                item_name@,
                is_dir,
                crate::text::strs::opt_str_view(destination_root_relative_path),
            ) == Err::<Seq<char>, Seq<char>>(m@),
        },
{
    let root_rel: Vec<char> = match destination_root_relative_path {
        Some(d) => match normalize_remote_chars(&chars_of(d)) {
            Some(v) => v,
            None => {
                return Err(AppError::InvalidInput(String::from_str("远程路径不合法")));
            },
        },
        None => chars_of(relative_path),
    };
    let rel = match normalize_remote_chars(&chars_of(relative_path)) {
        Some(v) => v,
        None => {
            return Err(AppError::InvalidInput(String::from_str("远程路径不合法")));
        },
    };
    let mut target = chars_of(destination_root);
    if chars_eq(&rel, &root_rel) {
        if is_dir {
            return Ok(string_of(&target));
        }
        let seg = safe_segment_chars(&chars_of(item_name), &chars_of("download.bin"));
        return Ok(string_of(&join_path_chars(&target, &seg)));
    }
    let tail: Vec<char> = if !is_cur_piece(&root_rel) {
        let prefix = child_prefix_chars(&root_rel);
        if !starts_with(&rel, &prefix) {
            return Err(AppError::InvalidInput(String::from_str("目标路径不在选择的远程目录内")));
        }
        let t = sub_chars(&rel, prefix.len(), rel.len());
        assert(t@ =~= rel@.skip(prefix@.len() as int));
        t
    } else {
        rel
    };
    if append_safe_chars(&mut target, &tail) {
        Ok(string_of(&target))
    } else {
        Err(AppError::InvalidInput(String::from_str("远程路径不合法")))
    }
}

/// Where a remote entry is cached under the cache root: a folder for the
/// remote user, one for the share, then a safe file name for a shared file,
/// else the share's name and the entry's path piece by piece.
pub open spec fn remote_cache_path_spec(
    cache_root: Seq<char>,
    remote_user_id: Seq<char>,
    share_id: Seq<char>,
    share_name: Seq<char>,
    relative_path: Seq<char>,
    item_name: Seq<char>,
    is_dir: bool,
) -> Result<Seq<char>, Seq<char>> {
    let root = join_path(
        join_path(cache_root, safe_segment(remote_user_id, "remote"@)),
        safe_segment(share_id, "share"@),
    );
    if relative_path == cur_part() && !is_dir {
        Ok(join_path(root, safe_segment(item_name, "download.bin"@)))
    } else {
        let target = join_path(root, safe_segment(share_name, "share"@));
        if relative_path == cur_part() {
            Ok(target)
        } else {
            let pushed = push_safe_parts(target, split_on(relative_path, '/'));
            if pushed.1 {
                Ok(pushed.0)
            } else {
                Err(invalid_remote_path_message())
            }
        }
    }
}

/// Where a remote entry is cached under the (resolved) cache root.
pub fn remote_cache_path(
    cache_root: &str,
    remote_user_id: &str,
    share_id: &str,
    share_name: &str,
    relative_path: &str,
    item_name: &str,
    is_dir: bool,
) -> (r: Result<String, AppError>)
    ensures
        match r {
            Ok(p) => remote_cache_path_spec(
                cache_root@,
                remote_user_id@,
                share_id@,
                share_name@,
                relative_path@,
                item_name@,
                is_dir,
            ) == Ok::<Seq<char>, Seq<char>>(p@),
            Err(e) => e matches AppError::InvalidInput(m) && remote_cache_path_spec(
                cache_root@,
                remote_user_id@,
                share_id@,
                share_name@,
                relative_path@,
                item_name@,
                is_dir,
            ) == Err::<Seq<char>, Seq<char>>(m@),
        },
{
    let user_seg = safe_segment_chars(&chars_of(remote_user_id), &chars_of("remote"));
    let share_seg = safe_segment_chars(&chars_of(share_id), &chars_of("share"));
    let root = join_path_chars(&join_path_chars(&chars_of(cache_root), &user_seg), &share_seg);
    let rel = chars_of(relative_path);
    let is_root = is_cur_piece(&rel);
    if is_root && !is_dir {
        let seg = safe_segment_chars(&chars_of(item_name), &chars_of("download.bin"));
        return Ok(string_of(&join_path_chars(&root, &seg)));
    }
    let name_seg = safe_segment_chars(&chars_of(share_name), &chars_of("share"));
    let mut target = join_path_chars(&root, &name_seg);
    if !is_root {
        if !append_safe_chars(&mut target, &rel) {
            return Err(AppError::InvalidInput(String::from_str("远程路径不合法")));
        }
    }
    Ok(string_of(&target))
}

// ---------------------------------------------------------------------------
// Remote addresses and replies
// ---------------------------------------------------------------------------

/// A remote server's base address: trimmed, without trailing `/`, with
/// `http://` in front unless it already names `http` or `https` (in any
/// case).
pub open spec fn remote_base_url_spec(raw: Seq<char>) -> Seq<char> {
    let value = trim_end_in(trim_ws(raw), CharSet::One('/'));
    let lower = lower_ascii(value);
    if seq!['h', 't', 't', 'p', ':', '/', '/'].is_prefix_of(lower) || seq![
        'h',
        't',
        't',
        'p',
        's',
        ':',
        '/',
        '/',
    ].is_prefix_of(lower) {
        value
    } else {
        seq!['h', 't', 't', 'p', ':', '/', '/'] + value
    }
}

/// A remote server's base address with its scheme.
pub fn normalized_remote_base_url(raw: &str) -> (r: String)
    ensures
        r@ == remote_base_url_spec(raw@),
{
    let value = trim_end_chars(&trim_ws_chars(&chars_of(raw)), CharSet::One('/'));
    let lower = lower_ascii_chars(&value);
    let http = vec!['h', 't', 't', 'p', ':', '/', '/'];
    let https = vec!['h', 't', 't', 'p', 's', ':', '/', '/'];
    assert(http@ =~= seq!['h', 't', 't', 'p', ':', '/', '/']);
    assert(https@ =~= seq!['h', 't', 't', 'p', 's', ':', '/', '/']);
    if starts_with(&lower, &http) || starts_with(&lower, &https) {
        string_of(&value)
    } else {
        let mut out = http;
        push_all(&mut out, &value);
        string_of(&out)
    }
}

/// `value` percent-encoded as a URI component: ASCII letters, digits and
/// `-_.~` stay, every other byte of its UTF-8 encoding becomes `%XX`.
pub fn encode_uri_component(value: &str) -> (r: String)
    ensures
        r@ == crate::web::url_encoded(value@),
{
    crate::web::url_encode(value)
}

/// What `serde_json` reads at `key` of the JSON text `text`: `None` where the
/// text does not parse or has no such key (or is not an object), else the
/// string there, or `None` inside where the value is not a string.
pub uninterp spec fn json_string_field(text: Seq<char>, key: Seq<char>) -> Option<Option<Seq<char>>>;

/// Reads `text` as a `serde_json::Value` and takes `Value::get(key)` and then
/// `Value::as_str`. The contract claims only that the outcome is a function
/// of the text and the key (`json_string_field`).
#[verifier::external_body]
fn json_field_text(text: &str, key: &str) -> (r: Option<Option<String>>)
    ensures
        match r {
            None => json_string_field(text@, key@) is None,
            Some(None) => json_string_field(text@, key@) == Some(None::<Seq<char>>),
            Some(Some(s)) => json_string_field(text@, key@) == Some(Some(s@)),
        },
{
    serde_json::from_str::<serde_json::Value>(text).ok().and_then(
        |v| v.get(key).map(|x| x.as_str().map(|s| s.to_string())),
    )
}

/// The message of a remote server's error reply: its `error` string, else
/// (where there is no `error` key) its `message` string, else its first 120
/// characters; empty for an empty reply.
pub open spec fn remote_error_detail_spec(detail: Seq<char>) -> Seq<char> {
    let head = detail.take(if detail.len() < 120 { detail.len() as int } else { 120 });
    if detail.len() == 0 {
        Seq::empty()
    } else {
        match json_string_field(detail, "error"@) {
            Some(inner) => match inner {
                Some(s) => s,
                None => head,
            },
            None => match json_string_field(detail, "message"@) {
                Some(Some(s)) => s,
                _ => head,
            },
        }
    }
}

/// The message of a remote server's error reply.
pub fn parse_remote_error_detail(detail: &str) -> (r: String)
    ensures
        r@ == remote_error_detail_spec(detail@),
{
    let chars = chars_of(detail);
    if chars.len() == 0 {
        return String::new();
    }
    let n: usize = if chars.len() < 120 {
        chars.len()
    } else {
        120
    };
    let head = sub_chars(&chars, 0, n);
    assert(head@ =~= detail@.take(n as int));
    match json_field_text(detail, "error") {
        Some(inner) => match inner {
            Some(s) => s,
            None => string_of(&head),
        },
        None => match json_field_text(detail, "message") {
            Some(Some(s)) => s,
            _ => string_of(&head),
        },
    }
}

// ---------------------------------------------------------------------------
// Command payloads and replies
// ---------------------------------------------------------------------------

/// A remote user that this device connects to.
pub struct RemoteShareUser {
    pub user_id: String,
    pub user_name: String,
    pub ip: String,
    pub password: Option<String>,
    pub device_id: Option<String>,
    pub auth_status: i32,
    pub last_connected_at: Option<i64>,
}

/// A device that asked to connect to this one.
pub struct InboundConnectionRequest {
    pub user_id: String,
    pub user_name: Option<String>,
    pub ip: String,
    pub device_id: Option<String>,
    pub auth_status: i32,
    pub last_seen_at: Option<i64>,
}

/// A web access request as the settings window lists it.
pub struct WebAccessRequest {
    pub id: String,
    pub client_label: String,
    pub ip: String,
    pub user_agent: Option<String>,
    pub scopes: Vec<String>,
    pub auth_status: i32,
    pub created_at: i64,
    pub expires_at: i64,
}

/// A file or folder that this device shares.
pub struct LocalSharedFileItem {
    pub id: String,
    pub path: String,
    pub kind: i32,
    pub size: Option<i64>,
    pub created_at: i64,
    pub source_type: i32,
    pub source_clipboard_id: Option<String>,
    pub is_favorite: i32,
    pub share_mode: i32,
}

pub struct UpsertRemoteShareUserPayload {
    pub user_id: String,
    pub user_name: String,
    pub ip: String,
    pub password: Option<String>,
    pub device_id: Option<String>,
}

pub struct AddManualSharedPathsPayload {
    pub paths: Vec<String>,
}

pub struct UpdateRemoteAuthStatusPayload {
    pub user_id: String,
    pub auth_status: i32,
    pub auth_token: Option<String>,
}

pub struct InboundAuthDecisionPayload {
    pub user_id: String,
    pub auth_status: i32,
}

pub struct WebAccessDecisionPayload {
    pub id: String,
    pub auth_status: i32,
    pub scopes: Option<Vec<String>>,
}

pub struct CacheRemoteSharedFilePayload {
    pub remote_user_id: String,
    pub share_id: String,
    pub share_name: String,
    pub relative_path: String,
    pub name: String,
    pub is_dir: bool,
    pub size: Option<i64>,
    pub mtime: Option<i64>,
    pub hash: Option<String>,
    pub data_base64: Option<String>,
    pub destination_dir: Option<String>,
    pub destination_root_relative_path: Option<String>,
}

pub struct DownloadRemoteSharedFilePayload {
    pub remote_user_id: String,
    pub base_url: String,
    pub auth_user_id: String,
    pub auth_device_id: String,
    pub share_id: String,
    pub share_name: String,
    pub relative_path: String,
    pub name: String,
    pub size: Option<i64>,
    pub mtime: Option<i64>,
    pub hash: Option<String>,
    pub transfer_task_id: Option<String>,
    pub destination_dir: Option<String>,
    pub destination_root_relative_path: Option<String>,
}

pub struct RemoteCacheTargetPayload {
    pub remote_user_id: String,
    pub share_id: String,
    pub relative_path: String,
}

pub struct ListRemoteCachedFilesPayload {
    pub remote_user_id: String,
    pub share_id: Option<String>,
    pub path: Option<String>,
}

pub struct RemoteCacheStatusPayload {
    pub remote_user_id: String,
    pub share_id: String,
    pub relative_path: String,
    pub size: Option<i64>,
    pub mtime: Option<i64>,
    pub hash: Option<String>,
}

/// Whether a remote entry is cached here, and what the cache holds.
pub struct RemoteCacheStatus {
    pub cached: bool,
    pub local_cache_path: Option<String>,
    pub size: Option<i64>,
    pub mtime: Option<i64>,
    pub hash: Option<String>,
    pub updated_at: Option<i64>,
}

pub struct ValidateEmptyDirectoryPayload {
    pub path: String,
}

pub struct MoveRemoteCachePayload {
    pub remote_user_id: String,
    pub share_id: String,
    pub relative_path: String,
    pub destination_dir: String,
}

/// One stored entry of a remote share's index, with what is cached of it.
pub struct SharedFileIndexRow {
    pub user_id: String,
    pub shared_file_id: String,
    pub relative_path: String,
    pub name: String,
    pub is_dir: i32,
    pub local_cache_path: Option<String>,
    pub size: Option<i64>,
    pub mtime: Option<i64>,
    pub hash: Option<String>,
    pub remote_deleted: i32,
    pub cache_status: i32,
    pub last_accessed_at: Option<i64>,
    pub updated_at: Option<i64>,
}

/// A cached remote entry as the file window lists it.
pub struct RemoteCachedFileItem {
    pub remote_user_id: String,
    pub share_id: String,
    pub share_name: String,
    pub relative_path: String,
    pub name: String,
    pub is_dir: bool,
    pub size: Option<i64>,
    pub mtime: Option<i64>,
    pub hash: Option<String>,
    pub local_cache_path: Option<String>,
    pub remote_deleted: bool,
    pub cache_status: i32,
    pub updated_at: Option<i64>,
}

/// The name of the share an entry belongs to: the name of the first row of
/// `rows` that is that share's root, else the entry's own name.
pub open spec fn share_name_of(row: SharedFileIndexRow, rows: Seq<SharedFileIndexRow>) -> Seq<char>
    decreases rows.len(),
{
    if rows.len() == 0 {
        row.name@
    } else if rows[0].shared_file_id@ == row.shared_file_id@ && rows[0].relative_path@ == cur_part() {
        rows[0].name@
    } else {
        share_name_of(row, rows.drop_first())
    }
}

fn share_name_in(row: &SharedFileIndexRow, rows: &[SharedFileIndexRow]) -> (r: String)
    ensures
        r@ == share_name_of(*row, rows@),
{
    let id = chars_of(row.shared_file_id.as_str());
    assert(rows@.skip(0) =~= rows@);
    let mut i: usize = 0;
    while i < rows.len()
        invariant
            i <= rows@.len(),
            id@ == row.shared_file_id@,
            share_name_of(*row, rows@.skip(i as int)) == share_name_of(*row, rows@),
        decreases rows.len() - i,
    {
        let ghost rest = rows@.skip(i as int);
        assert(rest[0] == rows@[i as int]);
        assert(rest.drop_first() =~= rows@.skip(i + 1));
        let item = &rows[i];
        if chars_eq(&chars_of(item.shared_file_id.as_str()), &id) && is_cur_piece(
            &chars_of(item.relative_path.as_str()),
        ) {
            return item.name.clone();
        }
        i = i + 1;
    }
    assert(rows@.skip(i as int).len() == 0);
    row.name.clone()
}

/// A cached remote entry as the file window lists it, named after its
/// share's root row among `rows`.
pub fn remote_cached_file_item(
    remote_user_id: &str,
    row: &SharedFileIndexRow,
    rows: &[SharedFileIndexRow],
) -> (r: RemoteCachedFileItem)
    ensures
        r.remote_user_id@ == remote_user_id@,
        r.share_id@ == row.shared_file_id@,
        r.share_name@ == share_name_of(*row, rows@),
        r.relative_path@ == row.relative_path@,
        r.name@ == row.name@,
        r.is_dir == (row.is_dir == 1),
        r.size == row.size,
        r.mtime == row.mtime,
        r.hash == row.hash,
        r.local_cache_path == row.local_cache_path,
        r.remote_deleted == (row.remote_deleted == 1),
        r.cache_status == row.cache_status,
        r.updated_at == row.updated_at,
{
    RemoteCachedFileItem {
        remote_user_id: remote_user_id.to_owned(),
        share_id: row.shared_file_id.clone(),
        share_name: share_name_in(row, rows),
        relative_path: row.relative_path.clone(),
        name: row.name.clone(),
        is_dir: row.is_dir == 1,
        size: row.size,
        mtime: row.mtime,
        hash: row.hash.clone(),
        local_cache_path: row.local_cache_path.clone(),
        remote_deleted: row.remote_deleted == 1,
        cache_status: row.cache_status,
        updated_at: row.updated_at,
    }
}

/// A web access request as the settings window lists it: without its
/// decision time and session.
pub fn web_access_request_response(request: crate::web_auth::WebAccessRequest) -> (r:
    WebAccessRequest)
    ensures
        r.id@ == request.id@,
        r.client_label@ == request.client_label@,
        r.ip@ == request.ip@,
        r.user_agent == request.user_agent,
        r.scopes@.map_values(|s: String| s@) == request.scopes@.map_values(
            |s: crate::web_auth::WebAccessScope| crate::web_auth::scope_name(s),
        ),
        r.auth_status == request.auth_status,
        r.created_at == request.created_at,
        r.expires_at == request.expires_at,
{
    let scopes = crate::web_auth::scope_names(request.scopes.as_slice());
    WebAccessRequest {
        id: request.id,
        client_label: request.client_label,
        ip: request.ip,
        user_agent: request.user_agent,
        scopes,
        auth_status: request.auth_status,
        created_at: request.created_at,
        expires_at: request.expires_at,
    }
}

/// Whether a cached entry's stored size or time matches what the remote
/// share reports: equal where both are known, unknown where the cache has
/// none but the share has one, and a match where the share reports none.
pub open spec fn meta_matches(expected: Option<i64>, actual: Option<i64>) -> bool {
    match expected {
        Some(e) => match actual {
            Some(a) => e == a,
            None => false,
        },
        None => true,
    }
}

/// Whether the cached copy is the entry the remote share reports: by hash
/// where the share reports a non-blank one, else by size and time.
pub open spec fn cache_matches_remote(
    expected_size: Option<i64>,
    expected_mtime: Option<i64>,
    expected_hash: Option<Seq<char>>,
    row: SharedFileIndexRow,
) -> bool {
    match expected_hash {
        Some(h) if trim_ws(h).len() > 0 => row.hash matches Some(rh) && rh@ == h,
        _ => meta_matches(expected_size, row.size) && meta_matches(expected_mtime, row.mtime),
    }
}

fn meta_matches_exec(expected: Option<i64>, actual: Option<i64>) -> (r: bool)
    ensures
        r == meta_matches(expected, actual),
{
    match expected {
        Some(e) => match actual {
            Some(a) => e == a,
            None => false,
        },
        None => true,
    }
}

/// Whether a remote entry's cached copy is current: the row is fully cached
/// (status 2), the entry still exists remotely, its file is on disk, and it
/// matches what the share reports.
pub open spec fn cached_copy_current(
    payload: RemoteCacheStatusPayload,
    row: SharedFileIndexRow,
    path_exists: bool,
) -> bool {
    row.cache_status == 2 && row.remote_deleted == 0 && path_exists && cache_matches_remote(
        payload.size,
        payload.mtime,
        match payload.hash {
            Some(h) => Some(h@),
            None => None,
        },
        row,
    )
}

/// A cached copy counts as current only where it is fully cached (status
/// 2), not deleted remotely and on disk; and, where the share reports no
/// non-blank hash, only with the share's size and time of change.
pub proof fn law_current_copy_is_complete_and_present(
    payload: RemoteCacheStatusPayload,
    row: SharedFileIndexRow,
    path_exists: bool,
)
    ensures
        cached_copy_current(payload, row, path_exists) ==> row.cache_status == 2
            && row.remote_deleted == 0 && path_exists,
        cached_copy_current(payload, row, path_exists) && (payload.hash is None || trim_ws(
            payload.hash->0@,
        ).len() == 0) ==> (payload.size is None || row.size == payload.size) && (payload.mtime is None
            || row.mtime == payload.mtime),
        (row.cache_status == 2 && row.remote_deleted == 0 && path_exists && payload.hash is None
            && (payload.size is None || row.size == payload.size) && (payload.mtime is None
            || row.mtime == payload.mtime)) ==> cached_copy_current(payload, row, path_exists),
{
}

/// What is known of a remote entry's cached copy: nothing where no row was
/// found; else cached exactly where the row is fully cached (status 2), the
/// entry still exists remotely, its file is on disk, and it matches what
/// the share reports.
pub fn remote_cache_status(
    payload: &RemoteCacheStatusPayload,
    row: Option<&SharedFileIndexRow>,
    path_exists: bool,
) -> (r: RemoteCacheStatus)
    ensures
        match row {
            None => !r.cached && r.local_cache_path is None && r.size is None && r.mtime is None
                && r.hash is None && r.updated_at is None,
            Some(row) => {
                &&& r.cached == cached_copy_current(*payload, *row, path_exists)
                &&& r.local_cache_path == row.local_cache_path
                &&& r.size == row.size
                &&& r.mtime == row.mtime
                &&& r.hash == row.hash
                &&& r.updated_at == row.updated_at
            },
        },
{
    let row = match row {
        None => {
            return RemoteCacheStatus {
                cached: false,
                local_cache_path: None,
                size: None,
                mtime: None,
                hash: None,
                updated_at: None,
            };
        },
        Some(r) => r,
    };
    let size_matches = meta_matches_exec(payload.size, row.size);
    let mtime_matches = meta_matches_exec(payload.mtime, row.mtime);
    let remote_meta_matches = match &payload.hash {
        Some(h) => {
            if trim_ws_chars(&chars_of(h.as_str())).len() > 0 {
                match &row.hash {
                    Some(rh) => chars_eq(&chars_of(rh.as_str()), &chars_of(h.as_str())),
                    None => false,
                }
            } else {
                size_matches && mtime_matches
            }
        },
        None => size_matches && mtime_matches,
    };
    RemoteCacheStatus {
        cached: row.cache_status == 2 && row.remote_deleted == 0 && path_exists
            && remote_meta_matches,
        local_cache_path: row.local_cache_path.clone(),
        size: row.size,
        mtime: row.mtime,
        hash: row.hash.clone(),
        updated_at: row.updated_at,
    }
}

// ---------------------------------------------------------------------------
// Listing what is cached of remote shares
// ---------------------------------------------------------------------------

/// The sort word of a text: its characters' code points (the order in which
/// `String`s compare).
pub open spec fn text_key(s: Seq<char>) -> Seq<u64> {
    s.map_values(|c: char| (c as u32) as u64)
}

pub(crate) fn text_word(s: &str) -> (w: Vec<u64>)
    ensures
        w@ == text_key(s@),
{
    let chars = chars_of(s);
    let mut w: Vec<u64> = Vec::new();
    let mut i: usize = 0;
    while i < chars.len()
        invariant
            i <= chars.len(),
            chars@ == s@,
            w@ == text_key(s@).take(i as int),
        decreases chars.len() - i,
    {
        w.push(chars[i] as u32 as u64);
        assert(text_key(s@).take(i + 1) =~= text_key(s@).take(i as int).push((chars@[i as int] as u32) as u64));
        i = i + 1;
    }
    assert(text_key(s@).take(chars.len() as int) =~= text_key(s@));
    w
}

/// The sort key of a cached entry in a directory listing: folders first,
/// then by name.
pub open spec fn child_key(row: SharedFileIndexRow) -> Seq<Seq<u64>> {
    seq![seq![if row.is_dir == 1 { 0u64 } else { 1u64 }], text_key(row.name@)]
}

/// The positions, among the first `m` rows, of the entries of share
/// `share_id` directly inside `parent`, in order.
pub open spec fn child_positions(
    rows: Seq<SharedFileIndexRow>,
    share_id: Seq<char>,
    parent: Seq<char>,
    m: int,
) -> Seq<int>
    decreases m,
{
    if m <= 0 {
        Seq::empty()
    } else {
        let prev = child_positions(rows, share_id, parent, m - 1);
        let r = rows[m - 1];
        if r.shared_file_id@ == share_id && is_direct_child_spec(parent, r.relative_path@) {
            prev.push(m - 1)
        } else {
            prev
        }
    }
}

/// Whether `item` lists the cached entry `row` of the user `uid` among `rows`.
pub open spec fn lists_row(
    item: RemoteCachedFileItem,
    uid: Seq<char>,
    row: SharedFileIndexRow,
    rows: Seq<SharedFileIndexRow>,
) -> bool {
    &&& item.remote_user_id@ == uid
    &&& item.share_id@ == row.shared_file_id@
    &&& item.share_name@ == share_name_of(row, rows)
    &&& item.relative_path@ == row.relative_path@
    &&& item.name@ == row.name@
    &&& item.is_dir == (row.is_dir == 1)
    &&& item.size == row.size
    &&& item.mtime == row.mtime
    &&& item.hash == row.hash
    &&& item.local_cache_path == row.local_cache_path
    &&& item.remote_deleted == (row.remote_deleted == 1)
    &&& item.cache_status == row.cache_status
    &&& item.updated_at == row.updated_at
}

/// Whether `items` lists the cached entries of share `share_id` directly
/// inside `parent`, folders first, then by name (a stable order).
pub open spec fn children_listing(
    uid: Seq<char>,
    share_id: Seq<char>,
    parent: Seq<char>,
    rows: Seq<SharedFileIndexRow>,
    items: Seq<RemoteCachedFileItem>,
) -> bool {
    let sel = child_positions(rows, share_id, parent, rows.len() as int);
    exists|order: Seq<int>|
        #[trigger] crate::ordering::is_sorted_order(child_keys(rows, sel), order, sel.len() as int)
            && items.len() == sel.len() && forall|j: int|
            0 <= j < items.len() ==> lists_row(#[trigger] items[j], uid, rows[sel[order[j]]], rows)
}

/// The sort keys of the rows at the given positions.
pub open spec fn child_keys(rows: Seq<SharedFileIndexRow>, sel: Seq<int>) -> Seq<Seq<Seq<u64>>> {
    sel.map_values(|p: int| child_key(rows[p]))
}

fn child_key_of(row: &SharedFileIndexRow) -> (k: Vec<Vec<u64>>)
    ensures
        crate::ordering::key_view(k) == child_key(*row),
{
    let flag: u64 = if row.is_dir == 1 {
        0
    } else {
        1
    };
    let a = vec![flag];
    assert(a@ =~= seq![flag]);
    let b = text_word(row.name.as_str());
    let k = vec![a, b];
    assert(k@[0]@ == seq![flag] && k@[1]@ == text_key(row.name@));
    assert(crate::ordering::key_view(k) =~= child_key(*row));
    k
}

/// The cached entries of share `share_id` directly inside the directory
/// `parent` (in canonical form), folders first, then by name; entries with
/// equal keys keep the order of `rows`.
pub fn cached_children(
    remote_user_id: &str,
    share_id: &str,
    parent: &str,
    rows: &[SharedFileIndexRow],
) -> (r: Vec<RemoteCachedFileItem>)
    ensures
        children_listing(remote_user_id@, share_id@, parent@, rows@, r@),
{
    let ghost sel_all = child_positions(rows@, share_id@, parent@, rows@.len() as int);
    let sid = chars_of(share_id);
    let mut sel: Vec<usize> = Vec::new();
    let mut keys: Vec<Vec<Vec<u64>>> = Vec::new();
    let mut i: usize = 0;
    while i < rows.len()
        invariant
            i <= rows@.len(),
            sid@ == share_id@,
            crate::ordering::positions(sel@) == child_positions(rows@, share_id@, parent@, i as int),
            keys@.len() == sel@.len(),
            forall|k: int| 0 <= k < sel@.len() ==> (sel@[k] as int) < i,
            forall|k: int|
                0 <= k < keys@.len() ==> crate::ordering::key_view(#[trigger] keys@[k]) == child_key(
                    rows@[sel@[k] as int],
                ),
        decreases rows.len() - i,
    {
        let row = &rows[i];
        let ghost prev_sel = sel@;
        if chars_eq(&chars_of(row.shared_file_id.as_str()), &sid) && is_direct_remote_child(
            parent,
            row.relative_path.as_str(),
        ) {
            sel.push(i);
            keys.push(child_key_of(row));
            assert(crate::ordering::positions(sel@) =~= crate::ordering::positions(prev_sel).push(
                i as int,
            ));
        }
        i = i + 1;
    }
    let order = crate::ordering::sorted_order(&keys);
    proof {
        let ks = crate::ordering::keys_view(keys@);
        assert(ks =~= child_keys(rows@, sel_all));
        assert forall|a: int| 0 <= a < order@.len() implies (order@[a] as int) < sel@.len() by {
            assert(crate::ordering::positions(order@)[a] == order@[a] as int);
        }
    }
    let mut out: Vec<RemoteCachedFileItem> = Vec::new();
    let mut j: usize = 0;
    while j < order.len()
        invariant
            j <= order@.len(),
            order@.len() == sel@.len(),
            crate::ordering::positions(sel@) == sel_all,
            forall|k: int| 0 <= k < sel@.len() ==> (sel@[k] as int) < rows@.len(),
            forall|a: int| 0 <= a < order@.len() ==> (order@[a] as int) < sel@.len(),
            out@.len() == j,
            forall|k: int|
                0 <= k < j ==> lists_row(
                    #[trigger] out@[k],
                    remote_user_id@,
                    rows@[sel_all[crate::ordering::positions(order@)[k]]],
                    rows@,
                ),
        decreases order.len() - j,
    {
        let p = sel[order[j]];
        out.push(remote_cached_file_item(remote_user_id, &rows[p], rows));
        j = j + 1;
    }
    proof {
        let po = crate::ordering::positions(order@);
        assert(crate::ordering::is_sorted_order(
            child_keys(rows@, sel_all),
            po,
            sel_all.len() as int,
        ));
        assert forall|k: int| 0 <= k < out@.len() implies lists_row(
            #[trigger] out@[k],
            remote_user_id@,
            rows@[sel_all[po[k]]],
            rows@,
        ) by {}
    }
    out
}

/// The order in which rows are taken as their share's root: by depth, then
/// share, then path.
pub open spec fn root_key(row: SharedFileIndexRow) -> Seq<Seq<u64>> {
    seq![
        seq![remote_path_depth_spec(row.relative_path@) as u64],
        text_key(row.shared_file_id@),
        text_key(row.relative_path@),
    ]
}

pub open spec fn root_keys(rows: Seq<SharedFileIndexRow>) -> Seq<Seq<Seq<u64>>> {
    rows.map_values(|r: SharedFileIndexRow| root_key(r))
}

/// Whether the row at place `j` of `order` is the first of its share there.
pub open spec fn first_of_share(rows: Seq<SharedFileIndexRow>, order: Seq<int>, j: int) -> bool {
    forall|k: int| 0 <= k < j ==> #[trigger] rows[order[k]].shared_file_id@ != rows[order[j]].shared_file_id@
}

/// The places, among the first `m` of `order`, that hold the first row of
/// their share, in order.
pub open spec fn kept_places(rows: Seq<SharedFileIndexRow>, order: Seq<int>, m: int) -> Seq<int>
    decreases m,
{
    if m <= 0 {
        Seq::empty()
    } else if first_of_share(rows, order, m - 1) {
        kept_places(rows, order, m - 1).push(m - 1)
    } else {
        kept_places(rows, order, m - 1)
    }
}

/// The sort keys, by name, of the rows at the kept places.
pub open spec fn name_keys(rows: Seq<SharedFileIndexRow>, order: Seq<int>, kept: Seq<int>) -> Seq<
    Seq<Seq<u64>>,
> {
    kept.map_values(|j: int| seq![text_key(rows[order[j]].name@)])
}

/// Whether `items` lists one entry per cached share: the share's shallowest
/// row (ties broken by share and path), by name (a stable order).
pub open spec fn roots_listing(
    uid: Seq<char>,
    rows: Seq<SharedFileIndexRow>,
    items: Seq<RemoteCachedFileItem>,
) -> bool {
    exists|o1: Seq<int>, o2: Seq<int>|
        #![trigger crate::ordering::is_sorted_order(root_keys(rows), o1, rows.len() as int), crate::ordering::is_sorted_order(name_keys(rows, o1, kept_places(rows, o1, rows.len() as int)), o2, kept_places(rows, o1, rows.len() as int).len() as int)]
        crate::ordering::is_sorted_order(root_keys(rows), o1, rows.len() as int)
            && crate::ordering::is_sorted_order(
            name_keys(rows, o1, kept_places(rows, o1, rows.len() as int)),
            o2,
            kept_places(rows, o1, rows.len() as int).len() as int,
        ) && items.len() == kept_places(rows, o1, rows.len() as int).len() && forall|j: int|
            0 <= j < items.len() ==> lists_row(
                #[trigger] items[j],
                uid,
                rows[o1[kept_places(rows, o1, rows.len() as int)[o2[j]]]],
                rows,
            )
}

fn root_key_of(row: &SharedFileIndexRow) -> (k: Vec<Vec<u64>>)
    ensures
        crate::ordering::key_view(k) == root_key(*row),
{
    let depth = remote_path_depth(row.relative_path.as_str());
    let a = vec![depth as u64];
    assert(a@ =~= seq![remote_path_depth_spec(row.relative_path@) as u64]);
    let b = text_word(row.shared_file_id.as_str());
    let c = text_word(row.relative_path.as_str());
    let k = vec![a, b, c];
    assert(k@[0]@ == a@ && k@[1]@ == b@ && k@[2]@ == c@);
    assert(crate::ordering::key_view(k) =~= root_key(*row));
    k
}

/// The cached shares of a remote user, one entry per share: the share's
/// shallowest row (ties broken by share and path), listed by name; entries
/// with equal names keep that order.
pub fn cached_share_roots(remote_user_id: &str, rows: &[SharedFileIndexRow]) -> (r: Vec<
    RemoteCachedFileItem,
>)
    ensures
        roots_listing(remote_user_id@, rows@, r@),
{
    let n = rows.len();
    let mut keys1: Vec<Vec<Vec<u64>>> = Vec::new();
    let mut i: usize = 0;
    while i < n
        invariant
            i <= n == rows@.len(),
            keys1@.len() == i,
            forall|k: int|
                0 <= k < i ==> crate::ordering::key_view(#[trigger] keys1@[k]) == root_key(rows@[k]),
        decreases n - i,
    {
        keys1.push(root_key_of(&rows[i]));
        i = i + 1;
    }
    assert(crate::ordering::keys_view(keys1@) =~= root_keys(rows@));
    let o1 = crate::ordering::sorted_order(&keys1);
    let ghost po1 = crate::ordering::positions(o1@);
    proof {
        assert forall|a: int| 0 <= a < o1@.len() implies (o1@[a] as int) < n by {
            assert(po1[a] == o1@[a] as int);
        }
    }
    let mut kept: Vec<usize> = Vec::new();
    let mut j: usize = 0;
    while j < n
        invariant
            j <= n == rows@.len() == o1@.len(),
            po1 == crate::ordering::positions(o1@),
            forall|a: int| 0 <= a < o1@.len() ==> (o1@[a] as int) < n,
            crate::ordering::positions(kept@) == kept_places(rows@, po1, j as int),
            forall|t: int| 0 <= t < kept@.len() ==> (kept@[t] as int) < j,
        decreases n - j,
    {
        let id = chars_of(rows[o1[j]].shared_file_id.as_str());
        let mut k: usize = 0;
        let mut first = true;
        while k < j
            invariant
                k <= j < n == rows@.len() == o1@.len(),
                po1 == crate::ordering::positions(o1@),
                forall|a: int| 0 <= a < o1@.len() ==> (o1@[a] as int) < n,
                id@ == rows@[po1[j as int]].shared_file_id@,
                first == forall|q: int| 0 <= q < k ==> #[trigger] rows@[po1[q]].shared_file_id@ != id@,
            decreases j - k,
        {
            assert(po1[k as int] == o1@[k as int] as int);
            if chars_eq(&chars_of(rows[o1[k]].shared_file_id.as_str()), &id) {
                first = false;
            }
            k = k + 1;
        }
        assert(po1[j as int] == o1@[j as int] as int);
        let ghost prev = kept@;
        if first {
            kept.push(j);
            assert(crate::ordering::positions(kept@) =~= crate::ordering::positions(prev).push(
                j as int,
            ));
        }
        j = j + 1;
    }
    let ghost kp = kept_places(rows@, po1, n as int);
    let mut keys2: Vec<Vec<Vec<u64>>> = Vec::new();
    let mut t: usize = 0;
    while t < kept.len()
        invariant
            t <= kept@.len(),
            n == rows@.len() == o1@.len(),
            po1 == crate::ordering::positions(o1@),
            forall|a: int| 0 <= a < o1@.len() ==> (o1@[a] as int) < n,
            crate::ordering::positions(kept@) == kp,
            forall|u: int| 0 <= u < kept@.len() ==> (kept@[u] as int) < n,
            keys2@.len() == t,
            forall|u: int|
                0 <= u < t ==> crate::ordering::key_view(#[trigger] keys2@[u]) == seq![
                    text_key(rows@[po1[kp[u]]].name@),
                ],
        decreases kept.len() - t,
    {
        let place = kept[t];
        assert(kp[t as int] == place as int);
        assert(po1[place as int] == o1@[place as int] as int);
        let w = text_word(rows[o1[place]].name.as_str());
        let key = vec![w];
        assert(key@[0]@ == w@);
        assert(crate::ordering::key_view(key) =~= seq![text_key(rows@[po1[kp[t as int]]].name@)]);
        keys2.push(key);
        t = t + 1;
    }
    assert(crate::ordering::keys_view(keys2@) =~= name_keys(rows@, po1, kp));
    let o2 = crate::ordering::sorted_order(&keys2);
    let ghost po2 = crate::ordering::positions(o2@);
    proof {
        assert forall|a: int| 0 <= a < o2@.len() implies (o2@[a] as int) < kept@.len() by {
            assert(po2[a] == o2@[a] as int);
        }
    }
    let mut out: Vec<RemoteCachedFileItem> = Vec::new();
    let mut v: usize = 0;
    while v < o2.len()
        invariant
            v <= o2@.len(),
            o2@.len() == kept@.len(),
            n == rows@.len() == o1@.len(),
            po1 == crate::ordering::positions(o1@),
            po2 == crate::ordering::positions(o2@),
            forall|a: int| 0 <= a < o1@.len() ==> (o1@[a] as int) < n,
            forall|a: int| 0 <= a < o2@.len() ==> (o2@[a] as int) < kept@.len(),
            crate::ordering::positions(kept@) == kp,
            forall|u: int| 0 <= u < kept@.len() ==> (kept@[u] as int) < n,
            out@.len() == v,
            forall|q: int|
                0 <= q < v ==> lists_row(
                    #[trigger] out@[q],
                    remote_user_id@,
                    rows@[po1[kp[po2[q]]]],
                    rows@,
                ),
        decreases o2.len() - v,
    {
        let place = kept[o2[v]];
        assert(po2[v as int] == o2@[v as int] as int);
        assert(kp[po2[v as int]] == place as int);
        assert(po1[place as int] == o1@[place as int] as int);
        out.push(remote_cached_file_item(remote_user_id, &rows[o1[place]], rows));
        v = v + 1;
    }
    proof {
        assert(crate::ordering::is_sorted_order(root_keys(rows@), po1, rows@.len() as int));
        assert(crate::ordering::is_sorted_order(name_keys(rows@, po1, kp), po2, kp.len() as int));
    }
    out
}

/// The message of a listing without a remote user.
pub open spec fn missing_remote_user_message() -> Seq<char> {
    "远程用户不能为空"@
}

/// The remote user a listing is for, trimmed; an invalid input error where
/// it is blank.
pub fn remote_user_of(raw: &str) -> (r: Result<String, AppError>)
    ensures
        match r {
            Ok(u) => trim_ws(raw@).len() > 0 && u@ == trim_ws(raw@),
            Err(e) => trim_ws(raw@).len() == 0 && (e matches AppError::InvalidInput(m) && m@
                == missing_remote_user_message()),
        },
{
    let t = trim_ws_chars(&chars_of(raw));
    if t.len() == 0 {
        Err(AppError::InvalidInput(String::from_str("远程用户不能为空")))
    } else {
        Ok(string_of(&t))
    }
}

/// What the file window lists of a remote user's cache (`rows` are the
/// user's fully cached rows): the entries of a directory of a share where a
/// (non-blank) share is named, else one entry per share; an invalid input
/// error for a directory path that leaves its share.
pub fn cached_file_listing(
    remote_user_id: &str,
    share_id: Option<&str>,
    path: Option<&str>,
    rows: &[SharedFileIndexRow],
) -> (r: Result<Vec<RemoteCachedFileItem>, AppError>)
    ensures
        match crate::access::trimmed_nonblank(crate::text::strs::opt_str_view(share_id)) {
            None => r matches Ok(items) && roots_listing(remote_user_id@, rows@, items@),
            Some(sid) => match remote_relative_path_spec(
                match path {
                    Some(p) => p@,
                    None => cur_part(),
                },
            ) {
                None => r matches Err(e) && (e matches AppError::InvalidInput(m) && m@
                    == invalid_remote_path_message()),
                Some(parent) => r matches Ok(items) && children_listing(
                    remote_user_id@,
                    sid,
                    parent,
                    rows@,
                    items@,
                ),
            },
        },
{
    let sid: Option<Vec<char>> = match share_id {
        Some(s) => {
            let t = trim_ws_chars(&chars_of(s));
            if t.len() > 0 {
                Some(t)
            } else {
                None
            }
        },
        None => None,
    };
    match sid {
        None => Ok(cached_share_roots(remote_user_id, rows)),
        Some(id) => {
            let raw: Vec<char> = match path {
                Some(p) => chars_of(p),
                None => dot_chars(),
            };
            match normalize_remote_chars(&raw) {
                None => Err(AppError::InvalidInput(String::from_str("远程路径不合法"))),
                Some(parent) => {
                    let id_s = string_of(&id);
                    let parent_s = string_of(&parent);
                    Ok(cached_children(remote_user_id, id_s.as_str(), parent_s.as_str(), rows))
                },
            }
        },
    }
}

/// Where the share reports no non-blank hash, a cached copy counts as
/// current only if it has the size and the time of change that the share
/// reports (where it reports them), and does count where both agree; where
/// the share reports a non-blank hash, exactly an equal cached hash counts.
pub proof fn law_cached_copy_is_current_only_if_it_matches(
    expected_size: Option<i64>,
    expected_mtime: Option<i64>,
    expected_hash: Option<Seq<char>>,
    row: SharedFileIndexRow,
)
    ensures
        (expected_hash is None || trim_ws(expected_hash->0).len() == 0) ==> {
            &&& (expected_mtime matches Some(m) && row.mtime != Some(m)) ==> !cache_matches_remote(
                expected_size,
                expected_mtime,
                expected_hash,
                row,
            )
            &&& (expected_size matches Some(s) && row.size != Some(s)) ==> !cache_matches_remote(
                expected_size,
                expected_mtime,
                expected_hash,
                row,
            )
            &&& ((expected_size is None || row.size == expected_size) && (expected_mtime is None
                || row.mtime == expected_mtime)) ==> cache_matches_remote(
                expected_size,
                expected_mtime,
                expected_hash,
                row,
            )
        },
        (expected_hash matches Some(h) && trim_ws(h).len() > 0) ==> (cache_matches_remote(
            expected_size,
            expected_mtime,
            expected_hash,
            row,
        ) <==> (row.hash matches Some(rh) && rh@ == expected_hash->0)),
{
}

} // verus!
