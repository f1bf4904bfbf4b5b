use vstd::prelude::*;

use crate::text::strs::{
    chars_of, join_chars, replace_chars, split_chars, string_of, sub_chars, trimmed, join_with,
    replace_char, split_on, trim_ws, views, opt_str_view, lemma_views_add, lemma_views_push,
};

verus! {

broadcast use vstd::string::group_string_axioms;

// ---------------------------------------------------------------------------
// Path components, as `std::path::Path::components` reads a Unix path
// ---------------------------------------------------------------------------

/// The component that stands for the root of an absolute path.
pub open spec fn root_part() -> Seq<char> {
    seq!['/']
}

/// The component that stands for a leading `.`.
pub open spec fn cur_part() -> Seq<char> {
    seq!['.']
}

/// The component that stands for `..`.
pub open spec fn parent_part() -> Seq<char> {
    seq!['.', '.']
}

/// A piece between separators that names no component: empty, or `.`.
pub open spec fn is_skipped_part(s: Seq<char>) -> bool {
    s.len() == 0 || s == cur_part()
}

/// The pieces of `parts` that name components, in order.
pub open spec fn kept_parts(parts: Seq<Seq<char>>) -> Seq<Seq<char>>
    decreases parts.len(),
{
    if parts.len() == 0 {
        Seq::empty()
    } else if is_skipped_part(parts.last()) {
        kept_parts(parts.drop_last())
    } else {
        kept_parts(parts.drop_last()).push(parts.last())
    }
}

/// Whether a path text is absolute: it starts with `/`.
pub open spec fn is_absolute(p: Seq<char>) -> bool {
    p.len() > 0 && p[0] == '/'
}

/// The components of a path text: the root for an absolute path, `.` for a
/// relative path that starts with `.`, then every piece between `/` that is
/// neither empty nor `.`.
pub open spec fn path_components(p: Seq<char>) -> Seq<Seq<char>> {
    let parts = split_on(p, '/');
    if is_absolute(p) {
        seq![root_part()] + kept_parts(parts)
    } else if parts[0] == cur_part() {
        seq![cur_part()] + kept_parts(parts)
    } else {
        kept_parts(parts)
    }
}

/// Whether `base`'s components begin `path`'s (`Path::starts_with`).
pub open spec fn path_starts_with_spec(path: Seq<char>, base: Seq<char>) -> bool {
    path_components(base).is_prefix_of(path_components(path))
}

/// `rel` appended to `base` as `PathBuf::push` appends a relative path: a
/// `/` goes between them unless `base` is empty or already ends with one.
pub open spec fn join_path(base: Seq<char>, rel: Seq<char>) -> Seq<char> {
    if base.len() == 0 || base.last() == '/' {
        base + rel
    } else {
        base + seq!['/'] + rel
    }
}

pub(crate) fn is_skipped_piece(s: &Vec<char>) -> (r: bool)
    ensures
        r == is_skipped_part(s@),
{
    if s.len() == 0 {
        true
    } else {
        let r = s.len() == 1 && s[0] == '.';
        assert(r ==> s@ =~= cur_part());
        r
    }
}

pub(crate) fn is_parent_piece(s: &Vec<char>) -> (r: bool)
    ensures
        r == (s@ == parent_part()),
{
    let r = s.len() == 2 && s[0] == '.' && s[1] == '.';
    assert(r ==> s@ =~= parent_part());
    r
}

/// The pieces of `parts` that name components.
pub(crate) fn keep_pieces(parts: &Vec<Vec<char>>) -> (r: Vec<Vec<char>>)
    ensures
        views(r@) == kept_parts(views(parts@)),
{
    let mut out: Vec<Vec<char>> = Vec::new();
    let mut i: usize = 0;
    while i < parts.len()
        invariant
            i <= parts.len(),
            views(out@) == kept_parts(views(parts@).take(i as int)),
        decreases parts.len() - i,
    {
        let ghost before = views(parts@).take(i as int);
        assert(views(parts@).take(i + 1).drop_last() =~= before);
        assert(views(parts@).take(i + 1).last() == parts@[i as int]@);
        if !is_skipped_piece(&parts[i]) {
            out.push(parts[i].clone());
            assert(views(out@) =~= kept_parts(before).push(parts@[i as int]@));
        }
        i = i + 1;
    }
    assert(views(parts@).take(parts.len() as int) =~= views(parts@));
    out
}

/// The components of a path text.
pub fn path_components_of(p: &Vec<char>) -> (r: Vec<Vec<char>>)
    ensures
        views(r@) == path_components(p@),
{
    let parts = split_chars(p, '/');
    let kept = keep_pieces(&parts);
    if p.len() > 0 && p[0] == '/' {
        let first = vec!['/'];
        assert(first@ =~= root_part());
        let mut r: Vec<Vec<char>> = Vec::new();
        r.push(first);
        let ghost r0 = r@;
        let ghost k0 = kept@;
        let mut k = kept;
        r.append(&mut k);
        proof {
            lemma_views_add(r0, k0);
            lemma_views_push(Seq::empty(), first);
            assert(Seq::<Vec<char>>::empty().push(first) =~= r0);
            assert(views(Seq::<Vec<char>>::empty()) =~= Seq::<Seq<char>>::empty());
        }
        r
    } else if is_cur_piece(&parts[0]) {
        let first = vec!['.'];
        assert(first@ =~= cur_part());
        let mut r: Vec<Vec<char>> = Vec::new();
        r.push(first);
        let ghost r0 = r@;
        let ghost k0 = kept@;
        let mut k = kept;
        r.append(&mut k);
        proof {
            lemma_views_add(r0, k0);
            lemma_views_push(Seq::empty(), first);
            assert(Seq::<Vec<char>>::empty().push(first) =~= r0);
            assert(views(Seq::<Vec<char>>::empty()) =~= Seq::<Seq<char>>::empty());
        }
        r
    } else {
        kept
    }
}

pub(crate) fn is_cur_piece(s: &Vec<char>) -> (r: bool)
    ensures
        r == (s@ == cur_part()),
{
    let r = s.len() == 1 && s[0] == '.';
    assert(r ==> s@ =~= cur_part());
    r
}

/// Whether the components of `p` begin with those of `base`.
fn components_prefix(p: &Vec<Vec<char>>, base: &Vec<Vec<char>>) -> (r: bool)
    ensures
        r == views(base@).is_prefix_of(views(p@)),
{
    if base.len() > p.len() {
        return false;
    }
    let mut i: usize = 0;
    while i < base.len()
        invariant
            i <= base.len() <= p.len(),
            forall|k: int| 0 <= k < i ==> base@[k]@ == p@[k]@,
        decreases base.len() - i,
    {
        if !crate::text::strs::chars_eq(&base[i], &p[i]) {
            assert(views(base@)[i as int] != views(p@)[i as int]);
            return false;
        }
        i = i + 1;
    }
    assert(views(base@) =~= views(p@).subrange(0, base@.len() as int));
    true
}

/// Whether `path` lies under `base`, component by component
/// (`Path::starts_with`).
pub fn path_starts_with(path: &str, base: &str) -> (r: bool)
    ensures
        r == path_starts_with_spec(path@, base@),
{
    let pc = path_components_of(&chars_of(path));
    let bc = path_components_of(&chars_of(base));
    components_prefix(&pc, &bc)
}

// ---------------------------------------------------------------------------
// File URIs and relative paths
// ---------------------------------------------------------------------------

/// `path` without a leading `file:///`, else without a leading `file://`.
pub open spec fn normalized_file_uri(path: Seq<char>) -> Seq<char> {
    if seq!['f', 'i', 'l', 'e', ':', '/', '/', '/'].is_prefix_of(path) {
        path.skip(8)
    } else if seq!['f', 'i', 'l', 'e', ':', '/', '/'].is_prefix_of(path) {
        path.skip(7)
    } else {
        path
    }
}

/// A local path from a `file://` URI, or the text itself where it is none.
pub fn normalize_file_uri(path: &str) -> (r: &str)
    ensures
        r@ == normalized_file_uri(path@),
{
    let chars = chars_of(path);
    let n = chars.len();
    let p7 = n >= 7 && chars[0] == 'f' && chars[1] == 'i' && chars[2] == 'l' && chars[3] == 'e'
        && chars[4] == ':' && chars[5] == '/' && chars[6] == '/';
    proof {
        if p7 {
            assert(seq!['f', 'i', 'l', 'e', ':', '/', '/'] =~= path@.subrange(0, 7));
        } else {
            if seq!['f', 'i', 'l', 'e', ':', '/', '/'].is_prefix_of(path@) {
                assert(path@.subrange(0, 7)[0] == 'f');
            }
            if seq!['f', 'i', 'l', 'e', ':', '/', '/', '/'].is_prefix_of(path@) {
                assert(path@.subrange(0, 8)[0] == 'f');
            }
        }
    }
    if p7 && n >= 8 && chars[7] == '/' {
        assert(seq!['f', 'i', 'l', 'e', ':', '/', '/', '/'] =~= path@.subrange(0, 8));
        path.substring_char(8, n)
    } else if p7 {
        proof {
            if seq!['f', 'i', 'l', 'e', ':', '/', '/', '/'].is_prefix_of(path@) {
                assert(path@.subrange(0, 8)[7] == '/');
            }
        }
        path.substring_char(7, n)
    } else {
        path
    }
}

/// Whether a relative path stays inside the directory it is read against:
/// it is not absolute and no component is `..`.
pub open spec fn is_valid_relative_path(p: Seq<char>) -> bool {
    !is_absolute(p) && forall|i: int|
        0 <= i < split_on(p, '/').len() ==> #[trigger] split_on(p, '/')[i] != parent_part()
}

/// Whether a relative path stays inside the directory it is read against.
pub fn validate_relative_path(p: &str) -> (r: bool)
    ensures
        r == is_valid_relative_path(p@),
{
    let chars = chars_of(p);
    if chars.len() > 0 && chars[0] == '/' {
        return false;
    }
    let parts = split_chars(&chars, '/');
    let mut i: usize = 0;
    while i < parts.len()
        invariant
            i <= parts.len(),
            views(parts@) == split_on(p@, '/'),
            forall|k: int| 0 <= k < i ==> #[trigger] split_on(p@, '/')[k] != parent_part(),
        decreases parts.len() - i,
    {
        if is_parent_piece(&parts[i]) {
            assert(split_on(p@, '/')[i as int] == parts@[i as int]@);
            return false;
        }
        assert(split_on(p@, '/')[i as int] == parts@[i as int]@);
        i = i + 1;
    }
    true
}

// ---------------------------------------------------------------------------
// Paths inside a share
// ---------------------------------------------------------------------------

/// The relative path that names a share's root directory.
pub const ROOT_RELATIVE_PATH: &'static str = ".";

/// Why a relative path inside a share was refused.
pub open spec fn absolute_path_message() -> Seq<char> {
    "absolute path is not allowed"@
}

pub open spec fn invalid_relative_path_message() -> Seq<char> {
    "invalid relative path"@
}

/// The relative path asked for, trimmed, with `.` for none or an empty one.
pub open spec fn requested_relative_path(relative_path: Option<Seq<char>>) -> Seq<char> {
    let t = trim_ws(
        match relative_path {
            Some(r) => r,
            None => cur_part(),
        },
    );
    if t.len() == 0 {
        cur_part()
    } else {
        t
    }
}

/// The path inside a share that a relative path names, read against the
/// share's root: the root itself for `.`, a refusal for an absolute path or
/// one with a `..` component, else the root joined with the relative path's
/// components.
pub open spec fn share_path_spec(root: Seq<char>, relative_path: Option<Seq<char>>) -> Result<
    Seq<char>,
    Seq<char>,
> {
    let rel = requested_relative_path(relative_path);
    if rel == cur_part() {
        Ok(root)
    } else if is_absolute(rel) {
        Err(absolute_path_message())
    } else if kept_parts(split_on(rel, '/')).contains(parent_part()) {
        Err(invalid_relative_path_message())
    } else {
        let parts = kept_parts(split_on(rel, '/'));
        if parts.len() == 0 {
            Ok(root)
        } else {
            Ok(join_path(root, join_with(parts, seq!['/'])))
        }
    }
}

pub(crate) fn join_path_chars(base: &Vec<char>, rel: &Vec<char>) -> (r: Vec<char>)
    ensures
        r@ == join_path(base@, rel@),
{
    let mut r = base.clone();
    if !(base.len() == 0 || base[base.len() - 1] == '/') {
        r.push('/');
    }
    let mut tail = rel.clone();
    r.append(&mut tail);
    assert(r@ =~= join_path(base@, rel@));
    r
}

/// Whether any piece is `..`.
pub(crate) fn has_parent_piece(parts: &Vec<Vec<char>>) -> (r: bool)
    ensures
        r == views(parts@).contains(parent_part()),
{
    let mut i: usize = 0;
    while i < parts.len()
        invariant
            i <= parts.len(),
            forall|k: int| 0 <= k < i ==> #[trigger] views(parts@)[k] != parent_part(),
        decreases parts.len() - i,
    {
        if is_parent_piece(&parts[i]) {
            assert(views(parts@)[i as int] == parent_part());
            return true;
        }
        assert(views(parts@)[i as int] == parts@[i as int]@);
        i = i + 1;
    }
    false
}

/// The path inside a share that `relative_path` names, read against the
/// share's (canonical) root, before it is looked up on disk.
pub fn resolve_share_path(root: &str, relative_path: Option<&str>) -> (r: Result<String, String>)
    ensures
        match r {
            Ok(p) => share_path_spec(root@, opt_str_view(relative_path)) == Ok::<
                Seq<char>,
                Seq<char>,
            >(p@),
            Err(m) => share_path_spec(root@, opt_str_view(relative_path)) == Err::<
                Seq<char>,
                Seq<char>,
            >(m@),
        },
{
    let raw = match relative_path {
        Some(s) => s,
        None => ROOT_RELATIVE_PATH,
    };
    proof {
        reveal_strlit(".");
    }
    let t = trimmed(raw);
    let rel: Vec<char> = if t.len() == 0 {
        let dot = vec!['.'];
        assert(dot@ =~= cur_part());
        dot
    } else {
        t
    };
    assert(rel@ == requested_relative_path(opt_str_view(relative_path)));
    if is_cur_piece(&rel) {
        return Ok(root.to_owned());
    }
    if rel[0] == '/' {
        return Err(String::from_str("absolute path is not allowed"));
    }
    let parts = keep_pieces(&split_chars(&rel, '/'));
    if has_parent_piece(&parts) {
        return Err(String::from_str("invalid relative path"));
    }
    if parts.len() == 0 {
        return Ok(root.to_owned());
    }
    let slash = vec!['/'];
    assert(slash@ =~= seq!['/']);
    let joined = join_chars(&parts, &slash);
    let base = chars_of(root);
    Ok(string_of(&join_path_chars(&base, &joined)))
}

pub(crate) proof fn lemma_split_no_sep(s: Seq<char>, sep: char)
    requires
        !s.contains(sep),
    ensures
        split_on(s, sep) == seq![s],
    decreases s.len(),
{
    if s.len() > 0 {
        assert(!s.drop_first().contains(sep)) by {
            if s.drop_first().contains(sep) {
                let i = choose|i: int| 0 <= i < s.drop_first().len() && s.drop_first()[i] == sep;
                assert(s[i + 1] == sep);
            }
        }
        lemma_split_no_sep(s.drop_first(), sep);
        assert(s[0] != sep) by {
            if s[0] == sep {
                assert(s.contains(sep));
            }
        }
        assert(seq![s[0]] + s.drop_first() =~= s);
    } else {
        assert(s =~= Seq::<char>::empty());
    }
}

pub(crate) proof fn lemma_split_concat(a: Seq<char>, b: Seq<char>, sep: char)
    ensures
        split_on(a + seq![sep] + b, sep) == split_on(a, sep) + split_on(b, sep),
    decreases a.len(),
{
    crate::text::strs::lemma_split_on_nonempty(b, sep);
    if a.len() == 0 {
        assert(a + seq![sep] + b =~= seq![sep] + b);
        assert((seq![sep] + b).drop_first() =~= b);
        assert(split_on(a, sep) =~= seq![Seq::<char>::empty()]);
    } else {
        let rest = a.drop_first();
        lemma_split_concat(rest, b, sep);
        crate::text::strs::lemma_split_on_nonempty(rest, sep);
        let whole = a + seq![sep] + b;
        assert(whole.drop_first() =~= rest + seq![sep] + b);
        assert(whole[0] == a[0]);
        let tail = split_on(rest + seq![sep] + b, sep);
        if a[0] == sep {
            assert(split_on(whole, sep) =~= seq![Seq::<char>::empty()] + tail);
            assert(split_on(a, sep) =~= seq![Seq::<char>::empty()] + split_on(rest, sep));
            assert(split_on(whole, sep) =~= split_on(a, sep) + split_on(b, sep));
        } else {
            assert(tail[0] == split_on(rest, sep)[0]);
            assert(split_on(whole, sep) =~= split_on(a, sep) + split_on(b, sep));
        }
    }
}

/// Whether each part names a component that a path can hold: not empty,
/// not `.`, without `/`.
pub open spec fn plain_parts(parts: Seq<Seq<char>>) -> bool {
    forall|i: int|
        0 <= i < parts.len() ==> !is_skipped_part(#[trigger] parts[i]) && !parts[i].contains('/')
}

pub(crate) proof fn lemma_split_join(parts: Seq<Seq<char>>)
    requires
        parts.len() >= 1,
        plain_parts(parts),
    ensures
        split_on(join_with(parts, seq!['/']), '/') == parts,
    decreases parts.len(),
{
    if parts.len() == 1 {
        lemma_split_no_sep(parts[0], '/');
        assert(seq![parts[0]] =~= parts);
    } else {
        let init = parts.drop_last();
        assert(plain_parts(init)) by {
            assert forall|i: int| 0 <= i < init.len() implies !is_skipped_part(#[trigger] init[i])
                && !init[i].contains('/') by {
                assert(init[i] == parts[i]);
            }
        }
        lemma_split_join(init);
        lemma_split_no_sep(parts.last(), '/');
        lemma_split_concat(join_with(init, seq!['/']), parts.last(), '/');
        assert(join_with(init, seq!['/']) + seq!['/'] + parts.last() == join_with(parts, seq!['/']));
        assert(init + seq![parts.last()] =~= parts);
    }
}

proof fn lemma_kept_concat(xs: Seq<Seq<char>>, ys: Seq<Seq<char>>)
    ensures
        kept_parts(xs + ys) == kept_parts(xs) + kept_parts(ys),
    decreases ys.len(),
{
    if ys.len() == 0 {
        assert(xs + ys =~= xs);
        assert(kept_parts(xs) + kept_parts(ys) =~= kept_parts(xs));
    } else {
        lemma_kept_concat(xs, ys.drop_last());
        assert((xs + ys).drop_last() =~= xs + ys.drop_last());
        assert((xs + ys).last() == ys.last());
        if is_skipped_part(ys.last()) {
        } else {
            assert(kept_parts(xs) + kept_parts(ys.drop_last()).push(ys.last()) =~= (kept_parts(xs)
                + kept_parts(ys.drop_last())).push(ys.last()));
        }
    }
}

proof fn lemma_kept_one_empty()
    ensures
        kept_parts(seq![Seq::<char>::empty()]) == Seq::<Seq<char>>::empty(),
{
    let e = seq![Seq::<char>::empty()];
    assert(e.last() =~= Seq::<char>::empty());
    assert(is_skipped_part(e.last()));
    assert(e.drop_last() =~= Seq::<Seq<char>>::empty());
    assert(kept_parts(e.drop_last()) == Seq::<Seq<char>>::empty());
}

pub(crate) proof fn lemma_kept_plain(parts: Seq<Seq<char>>)
    requires
        plain_parts(parts),
    ensures
        kept_parts(parts) == parts,
    decreases parts.len(),
{
    if parts.len() > 0 {
        let init = parts.drop_last();
        assert(plain_parts(init)) by {
            assert forall|i: int| 0 <= i < init.len() implies !is_skipped_part(#[trigger] init[i])
                && !init[i].contains('/') by {
                assert(init[i] == parts[i]);
            }
        }
        lemma_kept_plain(init);
        assert(!is_skipped_part(parts[parts.len() - 1]));
        assert(init.push(parts.last()) =~= parts);
    }
}

proof fn lemma_kept_parts_plain(rel: Seq<char>)
    ensures
        plain_parts(kept_parts(split_on(rel, '/'))),
        forall|x: Seq<char>|
            kept_parts(split_on(rel, '/')).contains(x) ==> split_on(rel, '/').contains(x),
{
    lemma_kept_sub(split_on(rel, '/'));
    lemma_split_pieces(rel);
}

pub(crate) proof fn lemma_kept_sub(parts: Seq<Seq<char>>)
    ensures
        forall|i: int|
            0 <= i < kept_parts(parts).len() ==> !is_skipped_part(#[trigger] kept_parts(parts)[i])
                && parts.contains(kept_parts(parts)[i]),
        forall|x: Seq<char>| kept_parts(parts).contains(x) ==> parts.contains(x),
    decreases parts.len(),
{
    if parts.len() > 0 {
        let init = parts.drop_last();
        lemma_kept_sub(init);
        assert forall|x: Seq<char>| init.contains(x) implies parts.contains(x) by {
            let i = choose|i: int| 0 <= i < init.len() && init[i] == x;
            assert(parts[i] == x);
        }
        assert(parts.contains(parts.last())) by {
            assert(parts[parts.len() - 1] == parts.last());
        }
        let k = kept_parts(parts);
        if is_skipped_part(parts.last()) {
            assert(k == kept_parts(init));
            assert forall|i: int| 0 <= i < k.len() implies !is_skipped_part(#[trigger] k[i])
                && parts.contains(k[i]) by {
                assert(init.contains(k[i]));
            }
        } else {
            assert forall|i: int| 0 <= i < k.len() implies !is_skipped_part(#[trigger] k[i])
                && parts.contains(k[i]) by {
                if i < k.len() - 1 {
                    assert(k[i] == kept_parts(init)[i]);
                }
            }
            assert forall|x: Seq<char>| k.contains(x) implies parts.contains(x) by {
                let i = choose|i: int| 0 <= i < k.len() && k[i] == x;
                if i < k.len() - 1 {
                    assert(k[i] == kept_parts(init)[i]);
                    assert(kept_parts(init).contains(x));
                }
            }
        }
    }
}

proof fn lemma_split_pieces(s: Seq<char>)
    ensures
        forall|i: int| 0 <= i < split_on(s, '/').len() ==> !(#[trigger] split_on(s, '/')[i]).contains(
            '/',
        ),
    decreases s.len(),
{
    if s.len() > 0 {
        let rest = split_on(s.drop_first(), '/');
        lemma_split_pieces(s.drop_first());
        crate::text::strs::lemma_split_on_nonempty(s.drop_first(), '/');
        if s[0] != '/' {
            let first = seq![s[0]] + rest[0];
            assert(!first.contains('/')) by {
                if first.contains('/') {
                    let j = choose|j: int| 0 <= j < first.len() && first[j] == '/';
                    if j > 0 {
                        assert(rest[0][j - 1] == '/');
                        assert(rest[0].contains('/'));
                    }
                }
            }
            assert forall|i: int| 0 <= i < split_on(s, '/').len() implies !(#[trigger] split_on(
                s,
                '/',
            )[i]).contains('/') by {
                if i > 0 {
                    assert(split_on(s, '/')[i] == rest[i]);
                }
            }
        } else {
            assert forall|i: int| 0 <= i < split_on(s, '/').len() implies !(#[trigger] split_on(
                s,
                '/',
            )[i]).contains('/') by {
                if i > 0 {
                    assert(split_on(s, '/')[i] == rest[i - 1]);
                } else {
                    assert(split_on(s, '/')[0] =~= Seq::<char>::empty());
                }
            }
        }
    }
}

/// The components that a relative path asks for inside a share: none for
/// `.`, else its components other than empty ones and `.`.
pub open spec fn requested_parts(relative_path: Option<Seq<char>>) -> Seq<Seq<char>> {
    let rel = requested_relative_path(relative_path);
    if rel == cur_part() {
        Seq::<Seq<char>>::empty()
    } else {
        kept_parts(split_on(rel, '/'))
    }
}

/// A path resolved inside a share never leaves it: its components are the
/// root's, followed by the components asked for, none of them `..`.
pub proof fn law_resolved_path_stays_in_share(root: Seq<char>, relative_path: Option<Seq<char>>)
    requires
        share_path_spec(root, relative_path) is Ok,
    ensures
        ({
            let p = share_path_spec(root, relative_path)->Ok_0;
            &&& path_starts_with_spec(p, root)
            &&& forall|i: int|
                path_components(root).len() <= i < path_components(p).len()
                    ==> #[trigger] path_components(p)[i] != parent_part()
            &&& path_components(p) == path_components(root) + requested_parts(relative_path)
        }),
{
    let rel = requested_relative_path(relative_path);
    let p = share_path_spec(root, relative_path)->Ok_0;
    if rel == cur_part() || kept_parts(split_on(rel, '/')).len() == 0 {
        assert(p == root);
        assert(path_components(root).is_prefix_of(path_components(root)));
        assert(requested_parts(relative_path).len() == 0);
        assert(path_components(root) + requested_parts(relative_path) =~= path_components(root));
    } else {
        let parts = kept_parts(split_on(rel, '/'));
        lemma_kept_parts_plain(rel);
        let j = join_with(parts, seq!['/']);
        lemma_split_join(parts);
        lemma_kept_plain(parts);
        crate::text::strs::lemma_split_on_nonempty(root, '/');
        assert(p == join_path(root, j));
        let rc = path_components(root);
        let pc = path_components(p);
        // The components of the joined path: the root's, then the parts.
        if root.len() == 0 {
            assert(p =~= j);
            assert(split_on(root, '/') =~= seq![Seq::<char>::empty()]);
            lemma_kept_one_empty();
            assert(!is_absolute(root));
            assert(rc =~= Seq::<Seq<char>>::empty());
            assert(parts[0] != cur_part());
            assert(!is_absolute(j)) by {
                if is_absolute(j) {
                    assert(split_on(j, '/')[0] =~= Seq::<char>::empty()) by {
                        assert(j[0] == '/');
                    }
                }
            }
            assert(pc == parts);
        } else {
            let base = if root.last() == '/' {
                root.drop_last()
            } else {
                root
            };
            assert(p =~= base + seq!['/'] + j);
            lemma_split_concat(base, j, '/');
            let sp = split_on(p, '/');
            assert(sp == split_on(base, '/') + parts);
            lemma_kept_concat(split_on(base, '/'), parts);
            assert(kept_parts(sp) == kept_parts(split_on(base, '/')) + parts);
            // The root's own split agrees with the base's, up to a trailing empty piece.
            if root.last() == '/' {
                assert(root =~= base + seq!['/'] + Seq::<char>::empty());
                lemma_split_concat(base, Seq::<char>::empty(), '/');
                assert(split_on(Seq::<char>::empty(), '/') =~= seq![Seq::<char>::empty()]);
                lemma_kept_concat(split_on(base, '/'), seq![Seq::<char>::empty()]);
                lemma_kept_one_empty();
                assert(kept_parts(split_on(root, '/')) =~= kept_parts(split_on(base, '/')));
                crate::text::strs::lemma_split_on_nonempty(base, '/');
                assert(split_on(root, '/')[0] == split_on(base, '/')[0]);
            }
            crate::text::strs::lemma_split_on_nonempty(base, '/');
            assert(sp[0] == split_on(base, '/')[0]);
            assert(is_absolute(p) == is_absolute(root)) by {
                if base.len() > 0 {
                    assert(p[0] == base[0] && root[0] == base[0]);
                } else {
                    assert(root =~= seq!['/']);
                    assert(p[0] == '/');
                }
            }
            assert(split_on(root, '/')[0] == split_on(base, '/')[0]);
            assert(pc =~= rc + parts);
        }
        assert(rc.is_prefix_of(pc)) by {
            assert(pc.subrange(0, rc.len() as int) =~= rc);
        }
        assert forall|i: int| rc.len() <= i < pc.len() implies #[trigger] pc[i] != parent_part() by {
            assert(pc[i] == parts[i - rc.len()]);
            assert(split_on(rel, '/').contains(parts[i - rc.len()])) by {
                assert(parts.contains(parts[i - rc.len()]));
            }
            assert(!parts.contains(parent_part()));
            assert(parts.contains(pc[i]));
        }
    }
}

/// Read back against its share's root, a resolved path gives the components
/// asked for, joined by `/` (with any backslash written as `/`), or `.` where
/// none were asked for.
pub proof fn law_relative_path_of_resolved(root: Seq<char>, relative_path: Option<Seq<char>>)
    requires
        share_path_spec(root, relative_path) is Ok,
    ensures
        relative_path_spec(root, share_path_spec(root, relative_path)->Ok_0) == ({
            let text = replace_char(join_with(requested_parts(relative_path), seq!['/']), '\\', '/');
            if text.len() == 0 {
                cur_part()
            } else {
                text
            }
        }),
{
    law_resolved_path_stays_in_share(root, relative_path);
    let p = share_path_spec(root, relative_path)->Ok_0;
    let rc = path_components(root);
    let pc = path_components(p);
    assert(pc.subrange(0, rc.len() as int) =~= rc);
    assert(rc.is_prefix_of(pc));
    assert(pc.skip(rc.len() as int) =~= requested_parts(relative_path));
}

/// Where the relative path asked for has no backslash, a resolved path read
/// back against its share's root gives exactly the components asked for,
/// joined by `/`, or `.` where none were asked for.
pub proof fn law_relative_path_round_trip(root: Seq<char>, relative_path: Option<Seq<char>>)
    requires
        share_path_spec(root, relative_path) is Ok,
        !requested_relative_path(relative_path).contains('\\'),
    ensures
        relative_path_spec(root, share_path_spec(root, relative_path)->Ok_0) == if requested_parts(
            relative_path,
        ).len() == 0 {
            cur_part()
        } else {
            join_with(requested_parts(relative_path), seq!['/'])
        },
{
    law_relative_path_of_resolved(root, relative_path);
    let rel = requested_relative_path(relative_path);
    let parts = requested_parts(relative_path);
    let j = join_with(parts, seq!['/']);
    if parts.len() > 0 {
        assert(rel != cur_part());
        lemma_kept_parts_plain(rel);
        crate::text::strs::lemma_split_lacks(rel, '/', '\\');
        assert forall|i: int| 0 <= i < parts.len() implies (#[trigger] parts[i]).len() > 0 && !parts[i].contains('\\') by {
            assert(parts.contains(parts[i]));
            assert(split_on(rel, '/').contains(parts[i]));
            let k = choose|k: int| 0 <= k < split_on(rel, '/').len() && split_on(rel, '/')[k] == parts[i];
        }
        assert(!seq!['/'].contains('\\')) by {
            if seq!['/'].contains('\\') {
                assert(seq!['/'][0] == '/');
            }
        }
        crate::text::strs::lemma_join_shape(parts, seq!['/'], '\\');
        assert(replace_char(j, '\\', '/') =~= j);
    } else {
        assert(j =~= Seq::<char>::empty());
        assert(replace_char(j, '\\', '/') =~= j);
    }
}

/// A path is read as `.` against a root where it is the root itself or does
/// not lie under it.
pub proof fn law_relative_path_of_root_or_outside(root: Seq<char>, target: Seq<char>)
    requires
        target == root || !path_starts_with_spec(target, root),
    ensures
        relative_path_spec(root, target) == cur_part(),
{
    let rc = path_components(root);
    if target == root {
        assert(rc.is_prefix_of(rc));
        assert(rc.skip(rc.len() as int) =~= Seq::<Seq<char>>::empty());
        assert(join_with(Seq::<Seq<char>>::empty(), seq!['/']) =~= Seq::<char>::empty());
        assert(replace_char(Seq::<char>::empty(), '\\', '/') =~= Seq::<char>::empty());
    }
}

/// The path of `target` relative to `root`, with `/` between components;
/// `.` where `target` is `root` itself or does not lie under it.
pub open spec fn relative_path_spec(root: Seq<char>, target: Seq<char>) -> Seq<char> {
    let rc = path_components(root);
    let tc = path_components(target);
    if rc.is_prefix_of(tc) {
        let text = replace_char(join_with(tc.skip(rc.len() as int), seq!['/']), '\\', '/');
        if text.len() == 0 {
            cur_part()
        } else {
            text
        }
    } else {
        cur_part()
    }
}

/// The path of `target` relative to `root`, as shown to users.
pub fn relative_path_for(root: &str, target: &str) -> (r: String)
    ensures
        r@ == relative_path_spec(root@, target@),
{
    let rc = path_components_of(&chars_of(root));
    let tc = path_components_of(&chars_of(target));
    let dot = vec!['.'];
    assert(dot@ =~= cur_part());
    if !components_prefix(&tc, &rc) {
        return string_of(&dot);
    }
    let mut rest: Vec<Vec<char>> = Vec::new();
    let mut i: usize = rc.len();
    while i < tc.len()
        invariant
            rc.len() <= i <= tc.len(),
            views(rest@) == views(tc@).subrange(rc.len() as int, i as int),
        decreases tc.len() - i,
    {
        let ghost before = rest@;
        let piece = tc[i].clone();
        assert(piece@ =~= tc@[i as int]@);
        rest.push(piece);
        proof {
            lemma_views_push(before, piece);
        }
        assert(views(rest@) =~= views(tc@).subrange(rc.len() as int, i + 1));
        i = i + 1;
    }
    assert(views(rest@) =~= views(tc@).skip(rc.len() as int));
    let slash = vec!['/'];
    assert(slash@ =~= seq!['/']);
    let text = replace_chars(&join_chars(&rest, &slash), '\\', '/');
    if text.len() == 0 {
        string_of(&dot)
    } else {
        string_of(&text)
    }
}

/// Whether a refusal of a share path is answered as forbidden (a path that
/// leaves the share, is absolute or invalid) rather than as not found.
pub open spec fn is_forbidden_path_error_spec(message: Seq<char>) -> bool {
    crate::text::strs::has_infix(message, "outside"@) || crate::text::strs::has_infix(
        message,
        "absolute"@,
    ) || crate::text::strs::has_infix(message, "invalid"@)
}

/// Whether a refusal of a share path is answered as forbidden.
pub fn is_forbidden_path_error(message: &str) -> (r: bool)
    ensures
        r == is_forbidden_path_error_spec(message@),
{
    let m = chars_of(message);
    crate::text::strs::contains_chars(&m, &chars_of("outside"))
        || crate::text::strs::contains_chars(&m, &chars_of("absolute"))
        || crate::text::strs::contains_chars(&m, &chars_of("invalid"))
}

} // verus!
