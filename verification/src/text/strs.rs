use vstd::prelude::*;

verus! {

broadcast use vstd::string::group_string_axioms;

// ---------------------------------------------------------------------------
// Character classes
// ---------------------------------------------------------------------------

/// The Unicode `White_Space` property, which is what `char::is_whitespace` tests.
pub open spec fn is_ws(c: char) -> bool {
    let u = c as u32;
    ||| 0x9 <= u <= 0xD
    ||| u == 0x20
    ||| u == 0x85
    ||| u == 0xA0
    ||| u == 0x1680
    ||| 0x2000 <= u <= 0x200A
    ||| u == 0x2028
    ||| u == 0x2029
    ||| u == 0x202F
    ||| u == 0x205F
    ||| u == 0x3000
}

/// Whether `c` has the Unicode `White_Space` property.
pub fn is_whitespace(c: char) -> (b: bool)
    ensures
        b == is_ws(c),
{
    let u = c as u32;
    (0x9 <= u && u <= 0xD) || u == 0x20 || u == 0x85 || u == 0xA0 || u == 0x1680 || (0x2000 <= u
        && u <= 0x200A) || u == 0x2028 || u == 0x2029 || u == 0x202F || u == 0x205F || u == 0x3000
}

pub open spec fn is_ascii_alpha(c: char) -> bool {
    ('a' <= c && c <= 'z') || ('A' <= c && c <= 'Z')
}

pub open spec fn is_ascii_digit_char(c: char) -> bool {
    '0' <= c && c <= '9'
}

pub fn is_ascii_alpha_exec(c: char) -> (b: bool)
    ensures
        b == is_ascii_alpha(c),
{
    ('a' <= c && c <= 'z') || ('A' <= c && c <= 'Z')
}

pub fn is_ascii_digit_exec(c: char) -> (b: bool)
    ensures
        b == is_ascii_digit_char(c),
{
    '0' <= c && c <= '9'
}

/// The ASCII lowercase form of `c` (other characters are unchanged).
pub open spec fn ascii_lower(c: char) -> char {
    if 'A' <= c && c <= 'Z' {
        ((c as u32) + 32) as char
    } else {
        c
    }
}

pub fn to_ascii_lower(c: char) -> (r: char)
    ensures
        r == ascii_lower(c),
{
    if 'A' <= c && c <= 'Z' {
        let b = (c as u32) as u8;
        (b + 32) as char
    } else {
        c
    }
}

/// A set of characters that a trim removes.
#[derive(Clone, Copy)]
pub enum CharSet {
    Whitespace,
    One(char),
    SpaceOrDot,
}

impl CharSet {
    pub open spec fn has(self, c: char) -> bool {
        match self {
            CharSet::Whitespace => is_ws(c),
            CharSet::One(x) => c == x,
            CharSet::SpaceOrDot => c == ' ' || c == '.',
        }
    }

    pub fn contains(&self, c: char) -> (b: bool)
        ensures
            b == self.has(c),
    {
        match self {
            CharSet::Whitespace => is_whitespace(c),
            CharSet::One(x) => c == *x,
            CharSet::SpaceOrDot => c == ' ' || c == '.',
        }
    }
}

// ---------------------------------------------------------------------------
// Specifications over character sequences
// ---------------------------------------------------------------------------

/// `s` without its leading characters from `set`.
pub open spec fn trim_start_in(s: Seq<char>, set: CharSet) -> Seq<char>
    decreases s.len(),
{
    if s.len() > 0 && set.has(s[0]) {
        trim_start_in(s.drop_first(), set)
    } else {
        s
    }
}

/// `s` without its trailing characters from `set`.
pub open spec fn trim_end_in(s: Seq<char>, set: CharSet) -> Seq<char>
    decreases s.len(),
{
    if s.len() > 0 && set.has(s.last()) {
        trim_end_in(s.drop_last(), set)
    } else {
        s
    }
}

/// `s` without its leading and trailing characters from `set`.
pub open spec fn trim_in(s: Seq<char>, set: CharSet) -> Seq<char> {
    trim_end_in(trim_start_in(s, set), set)
}

/// `s` without leading and trailing white space (`str::trim`).
pub open spec fn trim_ws(s: Seq<char>) -> Seq<char> {
    trim_in(s, CharSet::Whitespace)
}

/// The pieces of `s` between occurrences of `sep` (`str::split` with a character).
pub open spec fn split_on(s: Seq<char>, sep: char) -> Seq<Seq<char>>
    decreases s.len(),
{
    if s.len() == 0 {
        seq![Seq::<char>::empty()]
    } else {
        let rest = split_on(s.drop_first(), sep);
        if s[0] == sep {
            seq![Seq::<char>::empty()] + rest
        } else {
            rest.update(0, seq![s[0]] + rest[0])
        }
    }
}

/// `parts` joined with `sep` between consecutive parts (`[T]::join`).
pub open spec fn join_with(parts: Seq<Seq<char>>, sep: Seq<char>) -> Seq<char>
    decreases parts.len(),
{
    if parts.len() == 0 {
        Seq::<char>::empty()
    } else if parts.len() == 1 {
        parts[0]
    } else {
        join_with(parts.drop_last(), sep) + sep + parts.last()
    }
}

/// `s` with every `from` replaced by `to`.
pub open spec fn replace_char(s: Seq<char>, from: char, to: char) -> Seq<char> {
    Seq::new(s.len(), |i: int| if s[i] == from { to } else { s[i] })
}

/// `s` with ASCII letters lowercased.
pub open spec fn lower_ascii(s: Seq<char>) -> Seq<char> {
    Seq::new(s.len(), |i: int| ascii_lower(s[i]))
}

/// Whether `t` occurs in `s` as a contiguous piece.
pub open spec fn has_infix(s: Seq<char>, t: Seq<char>) -> bool {
    exists|i: int| 0 <= i && i + t.len() <= s.len() && #[trigger] s.subrange(i, i + t.len()) == t
}

/// The characters of an optional text.
pub open spec fn opt_str_view(o: Option<&str>) -> Option<Seq<char>> {
    match o {
        Some(s) => Some(s@),
        None => None,
    }
}

/// The views of a sequence of character vectors.
pub open spec fn views(v: Seq<Vec<char>>) -> Seq<Seq<char>> {
    v.map_values(|x: Vec<char>| x@)
}

pub proof fn lemma_views_push(v: Seq<Vec<char>>, x: Vec<char>)
    ensures
        views(v.push(x)) =~= views(v).push(x@),
{
    assert forall|i: int| 0 <= i < v.len() + 1 implies #[trigger] views(v.push(x))[i] == views(
        v,
    ).push(x@)[i] by {
        if i < v.len() {
            assert(v.push(x)[i] == v[i]);
        }
    }
}

pub proof fn lemma_views_add(a: Seq<Vec<char>>, b: Seq<Vec<char>>)
    ensures
        views(a + b) =~= views(a) + views(b),
{
    assert forall|i: int| 0 <= i < a.len() + b.len() implies #[trigger] views(a + b)[i] == (views(
        a,
    ) + views(b))[i] by {
        if i < a.len() {
            assert((a + b)[i] == a[i]);
        } else {
            assert((a + b)[i] == b[i - a.len()]);
        }
    }
}

pub proof fn lemma_split_on_nonempty(s: Seq<char>, sep: char)
    ensures
        split_on(s, sep).len() >= 1,
    decreases s.len(),
{
    if s.len() > 0 {
        lemma_split_on_nonempty(s.drop_first(), sep);
    }
}

// ---------------------------------------------------------------------------
// Conversions between `str`, `String` and `Vec<char>`
// ---------------------------------------------------------------------------

/// Appends one character to a `String` (std's `String::push`).
#[verifier::external_body]
pub(crate) fn push_char(s: &mut String, c: char)
    ensures
        final(s)@ == old(s)@.push(c),
{
    s.push(c);
}

/// The message of `std::string::FromUtf8Error` (its `Display` text) for the
/// bytes that `String::from_utf8` refused.
pub uninterp spec fn utf8_error_text(bytes: Seq<u8>) -> Seq<char>;

/// The text that `bytes` encode as UTF-8 (std's `String::from_utf8`), or the
/// error's message where they are not valid UTF-8, as its documentation
/// states. The message is claimed only to be a function of the bytes.
#[verifier::external_body]
pub(crate) fn string_from_utf8(bytes: Vec<u8>) -> (r: Result<String, String>)
    ensures
        r is Ok <==> vstd::utf8::valid_utf8(bytes@),
        r matches Ok(s) ==> s@ == vstd::utf8::decode_utf8(bytes@),
        r matches Err(m) ==> m@ == utf8_error_text(bytes@),
{
    String::from_utf8(bytes).map_err(|e| e.to_string())
}

/// The characters of `s`, in order.
pub fn chars_of(s: &str) -> (v: Vec<char>)
    ensures
        v@ == s@,
{
    let mut v: Vec<char> = Vec::new();
    for c in it: s.chars()
        invariant
            v@ == it.seq().take(it.index() as int),
            it.seq() == s@,
    {
        v.push(c);
    }
    v
}

/// The `String` holding the characters of `v`.
pub fn string_of(v: &Vec<char>) -> (s: String)
    ensures
        s@ == v@,
{
    let mut s = String::new();
    let mut i: usize = 0;
    while i < v.len()
        invariant
            i <= v.len(),
            s@ == v@.take(i as int),
        decreases v.len() - i,
    {
        push_char(&mut s, v[i]);
        assert(v@.take(i + 1) == v@.take(i as int).push(v@[i as int]));
        i = i + 1;
    }
    assert(v@.take(v.len() as int) == v@);
    s
}

/// The characters of `v` from `from` up to `to`.
pub fn sub_chars(v: &Vec<char>, from: usize, to: usize) -> (r: Vec<char>)
    requires
        from <= to <= v.len(),
    ensures
        r@ == v@.subrange(from as int, to as int),
{
    let mut r: Vec<char> = Vec::new();
    let mut i = from;
    while i < to
        invariant
            from <= i <= to <= v.len(),
            r@ == v@.subrange(from as int, i as int),
        decreases to - i,
    {
        r.push(v[i]);
        assert(v@.subrange(from as int, i + 1) == v@.subrange(from as int, i as int).push(
            v@[i as int],
        ));
        i = i + 1;
    }
    r
}

/// `a` followed by `b`.
pub fn concat_chars(a: &Vec<char>, b: &Vec<char>) -> (r: Vec<char>)
    ensures
        r@ == a@ + b@,
{
    let mut r = a.clone();
    let mut i: usize = 0;
    while i < b.len()
        invariant
            i <= b.len(),
            r@ == a@ + b@.take(i as int),
        decreases b.len() - i,
    {
        r.push(b[i]);
        assert(b@.take(i + 1) == b@.take(i as int).push(b@[i as int]));
        i = i + 1;
    }
    assert(b@.take(b.len() as int) == b@);
    r
}

/// Appends the characters of `b` to `a`.
pub fn push_all(a: &mut Vec<char>, b: &Vec<char>)
    ensures
        final(a)@ == old(a)@ + b@,
{
    let mut i: usize = 0;
    while i < b.len()
        invariant
            i <= b.len(),
            a@ == old(a)@ + b@.take(i as int),
        decreases b.len() - i,
    {
        a.push(b[i]);
        assert(b@.take(i + 1) == b@.take(i as int).push(b@[i as int]));
        i = i + 1;
    }
    assert(b@.take(b.len() as int) == b@);
}

/// Whether `a` and `b` hold the same characters.
pub fn chars_eq(a: &Vec<char>, b: &Vec<char>) -> (r: bool)
    ensures
        r == (a@ == b@),
{
    if a.len() != b.len() {
        return false;
    }
    let mut i: usize = 0;
    while i < a.len()
        invariant
            a.len() == b.len(),
            i <= a.len(),
            forall|j: int| 0 <= j < i ==> a@[j] == b@[j],
        decreases a.len() - i,
    {
        if a[i] != b[i] {
            return false;
        }
        i = i + 1;
    }
    assert(a@ =~= b@);
    true
}

/// Whether `a` holds exactly the characters of the literal `lit`.
pub fn chars_eq_str(a: &Vec<char>, lit: &str) -> (r: bool)
    ensures
        r == (a@ == lit@),
{
    let b = chars_of(lit);
    chars_eq(a, &b)
}

/// Whether `p` is a prefix of `s`.
pub fn starts_with(s: &Vec<char>, p: &Vec<char>) -> (r: bool)
    ensures
        r == p@.is_prefix_of(s@),
{
    if p.len() > s.len() {
        return false;
    }
    let mut i: usize = 0;
    while i < p.len()
        invariant
            p.len() <= s.len(),
            i <= p.len(),
            forall|j: int| 0 <= j < i ==> s@[j] == p@[j],
        decreases p.len() - i,
    {
        if s[i] != p[i] {
            assert(s@.subrange(0, p.len() as int)[i as int] != p@[i as int]);
            return false;
        }
        i = i + 1;
    }
    assert(p@ =~= s@.subrange(0, p.len() as int));
    true
}

/// Whether `p` is a suffix of `s`.
pub fn ends_with(s: &Vec<char>, p: &Vec<char>) -> (r: bool)
    ensures
        r == p@.is_suffix_of(s@),
{
    if p.len() > s.len() {
        return false;
    }
    let off = s.len() - p.len();
    let mut i: usize = 0;
    while i < p.len()
        invariant
            p.len() <= s.len(),
            off == s.len() - p.len(),
            i <= p.len(),
            forall|j: int| 0 <= j < i ==> s@[off + j] == p@[j],
        decreases p.len() - i,
    {
        if s[off + i] != p[i] {
            assert(s@.subrange(off as int, s.len() as int)[i as int] != p@[i as int]);
            return false;
        }
        i = i + 1;
    }
    assert(p@ =~= s@.subrange(off as int, s.len() as int));
    true
}

/// Whether `c` occurs in `s`.
pub fn contains_char(s: &Vec<char>, c: char) -> (r: bool)
    ensures
        r == s@.contains(c),
{
    let mut i: usize = 0;
    while i < s.len()
        invariant
            i <= s.len(),
            forall|j: int| 0 <= j < i ==> s@[j] != c,
        decreases s.len() - i,
    {
        if s[i] == c {
            assert(s@[i as int] == c);
            return true;
        }
        i = i + 1;
    }
    false
}

/// Whether `t` occurs in `s` as a contiguous piece.
pub fn contains_chars(s: &Vec<char>, t: &Vec<char>) -> (r: bool)
    ensures
        r == has_infix(s@, t@),
{
    if t.len() > s.len() {
        return false;
    }
    let last = s.len() - t.len();
    let mut i: usize = 0;
    while i <= last
        invariant
            t.len() <= s.len(),
            last == s.len() - t.len(),
            i <= last + 1,
            forall|k: int| 0 <= k < i ==> #[trigger] s@.subrange(k, k + t.len()) != t@,
        decreases last + 1 - i,
    {
        let mut j: usize = 0;
        let mut same = true;
        while j < t.len()
            invariant
                t.len() <= s.len(),
                i <= last,
                last == s.len() - t.len(),
                j <= t.len(),
                same == (forall|m: int| 0 <= m < j ==> s@[i + m] == t@[m]),
            decreases t.len() - j,
        {
            if s[i + j] != t[j] {
                same = false;
            }
            j = j + 1;
        }
        if same {
            assert(s@.subrange(i as int, i + t.len()) =~= t@);
            return true;
        }
        assert(s@.subrange(i as int, i + t.len()) != t@) by {
            let k = choose|m: int| 0 <= m < t.len() && s@[i + m] != t@[m];
            assert(s@.subrange(i as int, i + t.len())[k] != t@[k]);
        }
        i = i + 1;
    }
    assert forall|k: int| 0 <= k && k + t.len() <= s.len() implies #[trigger] s@.subrange(k, k + t.len())
        != t@ by {
        assert(k < i);
    }
    false
}

// ---------------------------------------------------------------------------
// Trimming
// ---------------------------------------------------------------------------

proof fn lemma_trim_start_step(s: Seq<char>, i: int, set: CharSet)
    requires
        0 <= i < s.len(),
        set.has(s[i]),
    ensures
        trim_start_in(s.subrange(i, s.len() as int), set) == trim_start_in(
            s.subrange(i + 1, s.len() as int),
            set,
        ),
{
    assert(s.subrange(i, s.len() as int).drop_first() =~= s.subrange(i + 1, s.len() as int));
}

proof fn lemma_trim_end_step(s: Seq<char>, j: int, set: CharSet)
    requires
        0 < j <= s.len(),
        set.has(s[j - 1]),
    ensures
        trim_end_in(s.subrange(0, j), set) == trim_end_in(s.subrange(0, j - 1), set),
{
    assert(s.subrange(0, j).drop_last() =~= s.subrange(0, j - 1));
}

/// What a trim from the start leaves is a suffix of the text that starts
/// with a character outside the set.
pub proof fn lemma_trim_start_shape(s: Seq<char>, set: CharSet)
    ensures
        exists|i: int| 0 <= i <= s.len() && #[trigger] trim_start_in(s, set) == s.subrange(i, s.len() as int),
        trim_start_in(s, set).len() > 0 ==> !set.has(trim_start_in(s, set)[0]),
    decreases s.len(),
{
    if s.len() > 0 && set.has(s[0]) {
        lemma_trim_start_shape(s.drop_first(), set);
        let i = choose|i: int| 0 <= i <= s.drop_first().len() && trim_start_in(s.drop_first(), set)
            == s.drop_first().subrange(i, s.drop_first().len() as int);
        assert(s.drop_first().subrange(i, s.drop_first().len() as int) =~= s.subrange(i + 1, s.len() as int));
    } else {
        assert(s.subrange(0, s.len() as int) =~= s);
    }
}

/// What a trim from the end leaves is a prefix of the text that ends with
/// a character outside the set.
pub proof fn lemma_trim_end_shape(s: Seq<char>, set: CharSet)
    ensures
        exists|j: int| 0 <= j <= s.len() && #[trigger] trim_end_in(s, set) == s.subrange(0, j),
        trim_end_in(s, set).len() > 0 ==> !set.has(trim_end_in(s, set).last()),
    decreases s.len(),
{
    if s.len() > 0 && set.has(s.last()) {
        lemma_trim_end_shape(s.drop_last(), set);
        let j = choose|j: int| 0 <= j <= s.drop_last().len() && trim_end_in(s.drop_last(), set)
            == s.drop_last().subrange(0, j);
        assert(s.drop_last().subrange(0, j) =~= s.subrange(0, j));
    } else {
        assert(s.subrange(0, s.len() as int) =~= s);
    }
}

/// A text that does not start or end with a character of the set is its own
/// trim.
pub proof fn lemma_trim_keeps(s: Seq<char>, set: CharSet)
    requires
        s.len() > 0 ==> !set.has(s[0]) && !set.has(s.last()),
    ensures
        trim_in(s, set) == s,
{
    assert(trim_start_in(s, set) == s);
}

/// Leading characters from the set in front of a text that starts outside
/// it are all that a trim from the start removes.
pub proof fn lemma_trim_start_pad(a: Seq<char>, x: Seq<char>, set: CharSet)
    requires
        forall|i: int| 0 <= i < a.len() ==> set.has(#[trigger] a[i]),
        x.len() > 0,
        !set.has(x[0]),
    ensures
        trim_start_in(a + x, set) == x,
    decreases a.len(),
{
    if a.len() == 0 {
        assert(a + x =~= x);
    } else {
        assert((a + x)[0] == a[0]);
        assert((a + x).drop_first() =~= a.drop_first() + x);
        lemma_trim_start_pad(a.drop_first(), x, set);
    }
}

/// Trailing characters from the set after a text that ends outside it are
/// all that a trim from the end removes.
pub proof fn lemma_trim_end_pad(x: Seq<char>, b: Seq<char>, set: CharSet)
    requires
        forall|i: int| 0 <= i < b.len() ==> set.has(#[trigger] b[i]),
        x.len() > 0,
        !set.has(x.last()),
    ensures
        trim_end_in(x + b, set) == x,
    decreases b.len(),
{
    if b.len() == 0 {
        assert(x + b =~= x);
    } else {
        assert((x + b).last() == b.last());
        assert((x + b).drop_last() =~= x + b.drop_last());
        lemma_trim_end_pad(x, b.drop_last(), set);
    }
}

/// Trimming a text padded on both sides with characters from the set gives
/// the text back, where it starts and ends outside the set.
pub proof fn lemma_trim_pad(a: Seq<char>, x: Seq<char>, b: Seq<char>, set: CharSet)
    requires
        forall|i: int| 0 <= i < a.len() ==> set.has(#[trigger] a[i]),
        forall|i: int| 0 <= i < b.len() ==> set.has(#[trigger] b[i]),
        x.len() > 0,
        !set.has(x[0]),
        !set.has(x.last()),
    ensures
        trim_in(a + x + b, set) == x,
{
    assert(a + x + b =~= a + (x + b));
    lemma_trim_start_pad(a, x + b, set);
    lemma_trim_end_pad(x, b, set);
}

/// Trimming twice trims no more than once.
pub proof fn lemma_trim_twice(s: Seq<char>, set: CharSet)
    ensures
        trim_in(trim_in(s, set), set) == trim_in(s, set),
        trim_in(s, set).len() > 0 ==> !set.has(trim_in(s, set)[0]) && !set.has(
            trim_in(s, set).last(),
        ),
{
    let u = trim_start_in(s, set);
    let t = trim_end_in(u, set);
    lemma_trim_start_shape(s, set);
    lemma_trim_end_shape(u, set);
    if t.len() > 0 {
        let j = choose|j: int| 0 <= j <= u.len() && t == u.subrange(0, j);
        assert(t[0] == u[0]);
    }
    lemma_trim_keeps(t, set);
}

/// Trimming keeps no character that the text lacks.
pub proof fn lemma_trim_lacks(s: Seq<char>, set: CharSet, c: char)
    requires
        !s.contains(c),
    ensures
        !trim_in(s, set).contains(c),
{
    let u = trim_start_in(s, set);
    lemma_trim_start_shape(s, set);
    lemma_trim_end_shape(u, set);
    let i = choose|i: int| 0 <= i <= s.len() && u == s.subrange(i, s.len() as int);
    let j = choose|j: int| 0 <= j <= u.len() && trim_end_in(u, set) == u.subrange(0, j);
    if trim_in(s, set).contains(c) {
        let k = choose|k: int| 0 <= k < trim_in(s, set).len() && trim_in(s, set)[k] == c;
        assert(s[i + k] == c);
    }
}

/// No piece of a split holds the separator, nor a character the text lacks.
pub proof fn lemma_split_lacks(s: Seq<char>, sep: char, c: char)
    ensures
        forall|i: int| 0 <= i < split_on(s, sep).len() ==> !(#[trigger] split_on(s, sep)[i]).contains(sep),
        !s.contains(c) ==> forall|i: int|
            0 <= i < split_on(s, sep).len() ==> !(#[trigger] split_on(s, sep)[i]).contains(c),
    decreases s.len(),
{
    if s.len() > 0 {
        let rest = split_on(s.drop_first(), sep);
        lemma_split_lacks(s.drop_first(), sep, c);
        lemma_split_on_nonempty(s.drop_first(), sep);
        assert(!s.contains(c) ==> !s.drop_first().contains(c)) by {
            if !s.contains(c) && s.drop_first().contains(c) {
                let k = choose|k: int| 0 <= k < s.drop_first().len() && s.drop_first()[k] == c;
                assert(s[k + 1] == c);
            }
        }
        if s[0] != sep {
            let first = seq![s[0]] + rest[0];
            assert forall|d: char| (d == sep || (d == c && !s.contains(c))) implies !first.contains(d) by {
                if first.contains(d) {
                    let j = choose|j: int| 0 <= j < first.len() && first[j] == d;
                    if j > 0 {
                        assert(rest[0][j - 1] == d);
                        assert(rest[0].contains(d));
                    } else {
                        assert(s[0] == d);
                        assert(s.contains(d));
                    }
                }
            }
            assert forall|i: int| 0 <= i < split_on(s, sep).len() implies !(#[trigger] split_on(s, sep)[i]).contains(sep) by {
                if i > 0 {
                    assert(split_on(s, sep)[i] == rest[i]);
                }
            }
            assert forall|i: int| !s.contains(c) && 0 <= i < split_on(s, sep).len() implies !(#[trigger] split_on(s, sep)[i]).contains(c) by {
                if i > 0 {
                    assert(split_on(s, sep)[i] == rest[i]);
                }
            }
        } else {
            assert(split_on(s, sep)[0] =~= Seq::<char>::empty());
            assert forall|i: int| 0 <= i < split_on(s, sep).len() implies !(#[trigger] split_on(s, sep)[i]).contains(sep) by {
                if i > 0 {
                    assert(split_on(s, sep)[i] == rest[i - 1]);
                }
            }
            assert forall|i: int| !s.contains(c) && 0 <= i < split_on(s, sep).len() implies !(#[trigger] split_on(s, sep)[i]).contains(c) by {
                if i > 0 {
                    assert(split_on(s, sep)[i] == rest[i - 1]);
                }
            }
        }
    } else {
        assert(split_on(s, sep) =~= seq![Seq::<char>::empty()]);
    }
}

/// Joined parts start with the first part and end with the last, and hold
/// no character that neither the parts nor the separator hold.
pub proof fn lemma_join_shape(parts: Seq<Seq<char>>, sep: Seq<char>, c: char)
    requires
        parts.len() >= 1,
        forall|i: int| 0 <= i < parts.len() ==> (#[trigger] parts[i]).len() > 0,
    ensures
        join_with(parts, sep).len() > 0,
        join_with(parts, sep)[0] == parts[0][0],
        join_with(parts, sep).last() == parts.last().last(),
        (!sep.contains(c) && forall|i: int| 0 <= i < parts.len() ==> !(#[trigger] parts[i]).contains(c))
            ==> !join_with(parts, sep).contains(c),
    decreases parts.len(),
{
    if parts.len() > 1 {
        let init = parts.drop_last();
        assert forall|i: int| 0 <= i < init.len() implies (#[trigger] init[i]).len() > 0 by {
            assert(init[i] == parts[i]);
        }
        lemma_join_shape(init, sep, c);
        let a = join_with(init, sep);
        let whole = a + sep + parts.last();
        assert(join_with(parts, sep) == whole);
        assert(whole[0] == a[0]);
        assert(init[0] == parts[0]);
        assert(whole.last() == parts.last().last());
        if !sep.contains(c) && forall|i: int| 0 <= i < parts.len() ==> !(#[trigger] parts[i]).contains(c) {
            assert forall|i: int| 0 <= i < init.len() implies !(#[trigger] init[i]).contains(c) by {
                assert(init[i] == parts[i]);
            }
            assert(!parts.last().contains(c)) by {
                assert(parts[parts.len() - 1] == parts.last());
            }
            if whole.contains(c) {
                let k = choose|k: int| 0 <= k < whole.len() && whole[k] == c;
                if k < a.len() {
                    assert(a[k] == c);
                    assert(a.contains(c));
                } else if k < a.len() + sep.len() {
                    assert(sep[k - a.len()] == c);
                    assert(sep.contains(c));
                } else {
                    assert(parts.last()[k - a.len() - sep.len()] == c);
                }
            }
        }
    } else {
        assert(join_with(parts, sep) == parts[0]);
        assert(parts.last() == parts[0]);
        if !sep.contains(c) && forall|i: int| 0 <= i < parts.len() ==> !(#[trigger] parts[i]).contains(c) {
            assert(!parts[0].contains(c));
        }
    }
}

/// `v` without its leading characters from `set`.
pub fn trim_start_chars(v: &Vec<char>, set: CharSet) -> (r: Vec<char>)
    ensures
        r@ == trim_start_in(v@, set),
{
    let mut i: usize = 0;
    assert(v@.subrange(0, v.len() as int) =~= v@);
    while i < v.len() && set.contains(v[i])
        invariant
            i <= v.len(),
            trim_start_in(v@, set) == trim_start_in(v@.subrange(i as int, v.len() as int), set),
        decreases v.len() - i,
    {
        proof {
            lemma_trim_start_step(v@, i as int, set);
        }
        i = i + 1;
    }
    assert(v@.subrange(0, v.len() as int) =~= v@);
    sub_chars(v, i, v.len())
}

/// `v` without its trailing characters from `set`.
pub fn trim_end_chars(v: &Vec<char>, set: CharSet) -> (r: Vec<char>)
    ensures
        r@ == trim_end_in(v@, set),
{
    let mut j: usize = v.len();
    assert(v@.subrange(0, v.len() as int) =~= v@);
    while j > 0 && set.contains(v[j - 1])
        invariant
            j <= v.len(),
            trim_end_in(v@, set) == trim_end_in(v@.subrange(0, j as int), set),
        decreases j,
    {
        proof {
            lemma_trim_end_step(v@, j as int, set);
        }
        j = j - 1;
    }
    sub_chars(v, 0, j)
}

/// `v` without its leading and trailing characters from `set`.
pub fn trim_chars(v: &Vec<char>, set: CharSet) -> (r: Vec<char>)
    ensures
        r@ == trim_in(v@, set),
{
    let a = trim_start_chars(v, set);
    trim_end_chars(&a, set)
}

/// `v` without leading and trailing white space.
pub fn trim_ws_chars(v: &Vec<char>) -> (r: Vec<char>)
    ensures
        r@ == trim_ws(v@),
{
    trim_chars(v, CharSet::Whitespace)
}

/// The characters of `s` without leading and trailing white space.
pub fn trimmed(s: &str) -> (r: Vec<char>)
    ensures
        r@ == trim_ws(s@),
{
    let v = chars_of(s);
    trim_ws_chars(&v)
}

// ---------------------------------------------------------------------------
// Splitting, joining, mapping
// ---------------------------------------------------------------------------

pub open spec fn prepend_first(cur: Seq<char>, r: Seq<Seq<char>>) -> Seq<Seq<char>> {
    r.update(0, cur + r[0])
}

/// The pieces of `v` between occurrences of `sep`.
pub fn split_chars(v: &Vec<char>, sep: char) -> (r: Vec<Vec<char>>)
    ensures
        views(r@) == split_on(v@, sep),
        r.len() >= 1,
{
    let mut done: Vec<Vec<char>> = Vec::new();
    let mut cur: Vec<char> = Vec::new();
    let mut i: usize = 0;
    proof {
        assert(v@.subrange(0, v.len() as int) =~= v@);
        lemma_split_on_nonempty(v@, sep);
        assert(prepend_first(Seq::<char>::empty(), split_on(v@, sep)) =~= split_on(v@, sep));
    }
    while i < v.len()
        invariant
            i <= v.len(),
            split_on(v@, sep) == views(done@) + prepend_first(
                cur@,
                split_on(v@.subrange(i as int, v.len() as int), sep),
            ),
        decreases v.len() - i,
    {
        let ghost tail = v@.subrange(i as int, v.len() as int);
        let ghost next = v@.subrange(i + 1, v.len() as int);
        proof {
            assert(tail.drop_first() =~= next);
            lemma_split_on_nonempty(next, sep);
        }
        if v[i] == sep {
            let ghost old_done = views(done@);
            let ghost old_cur = cur@;
            done.push(cur);
            cur = Vec::new();
            proof {
                assert(views(done@) =~= old_done.push(old_cur));
                assert(prepend_first(old_cur, split_on(tail, sep)) =~= seq![old_cur]
                    + prepend_first(Seq::<char>::empty(), split_on(next, sep)));
                assert(prepend_first(Seq::<char>::empty(), split_on(next, sep)) =~= split_on(
                    next,
                    sep,
                ));
                assert(views(done@) + prepend_first(cur@, split_on(next, sep)) =~= old_done + (
                seq![old_cur] + split_on(next, sep)));
            }
        } else {
            let ghost old_cur = cur@;
            cur.push(v[i]);
            proof {
                let rest = split_on(next, sep);
                assert(tail[0] == v@[i as int]);
                assert(split_on(tail, sep) == rest.update(0, seq![v@[i as int]] + rest[0]));
                assert(old_cur + (seq![v@[i as int]] + rest[0]) =~= cur@ + rest[0]);
                assert(prepend_first(old_cur, split_on(tail, sep)) =~= prepend_first(
                    cur@,
                    split_on(next, sep),
                ));
            }
        }
        i = i + 1;
    }
    proof {
        assert(v@.subrange(v.len() as int, v.len() as int) =~= Seq::<char>::empty());
    }
    let ghost old_done = views(done@);
    let ghost last = cur@;
    done.push(cur);
    proof {
        assert(views(done@) =~= old_done.push(last));
        assert(prepend_first(last, split_on(Seq::<char>::empty(), sep)) =~= seq![last]);
    }
    done
}

/// `parts` joined with `sep` between consecutive parts.
pub fn join_chars(parts: &Vec<Vec<char>>, sep: &Vec<char>) -> (r: Vec<char>)
    ensures
        r@ == join_with(views(parts@), sep@),
{
    let mut r: Vec<char> = Vec::new();
    let mut i: usize = 0;
    while i < parts.len()
        invariant
            i <= parts.len(),
            r@ == join_with(views(parts@).take(i as int), sep@),
        decreases parts.len() - i,
    {
        let ghost ps = views(parts@);
        proof {
            assert(ps.take(i + 1).drop_last() =~= ps.take(i as int));
        }
        if i > 0 {
            push_all(&mut r, sep);
        }
        push_all(&mut r, &parts[i]);
        proof {
            if i == 0 {
                assert(ps.take(1) =~= seq![ps[0]]);
            }
        }
        i = i + 1;
    }
    assert(views(parts@).take(parts.len() as int) =~= views(parts@));
    r
}

/// `v` with every `from` replaced by `to`.
pub fn replace_chars(v: &Vec<char>, from: char, to: char) -> (r: Vec<char>)
    ensures
        r@ == replace_char(v@, from, to),
{
    let mut r: Vec<char> = Vec::new();
    let mut i: usize = 0;
    while i < v.len()
        invariant
            i <= v.len(),
            r@ == replace_char(v@, from, to).take(i as int),
        decreases v.len() - i,
    {
        let c = if v[i] == from {
            to
        } else {
            v[i]
        };
        r.push(c);
        assert(replace_char(v@, from, to).take(i + 1) =~= replace_char(v@, from, to).take(
            i as int,
        ).push(c));
        i = i + 1;
    }
    assert(replace_char(v@, from, to).take(v.len() as int) =~= replace_char(v@, from, to));
    r
}

/// `v` with ASCII letters lowercased.
pub fn lower_ascii_chars(v: &Vec<char>) -> (r: Vec<char>)
    ensures
        r@ == lower_ascii(v@),
{
    let mut r: Vec<char> = Vec::new();
    let mut i: usize = 0;
    while i < v.len()
        invariant
            i <= v.len(),
            r@ == lower_ascii(v@).take(i as int),
        decreases v.len() - i,
    {
        let c = to_ascii_lower(v[i]);
        r.push(c);
        assert(lower_ascii(v@).take(i + 1) =~= lower_ascii(v@).take(i as int).push(c));
        i = i + 1;
    }
    assert(lower_ascii(v@).take(v.len() as int) =~= lower_ascii(v@));
    r
}

// ---------------------------------------------------------------------------
// Finding a character
// ---------------------------------------------------------------------------

/// The position of the first `c` in `s`, or `s.len()` where there is none.
pub open spec fn first_index(s: Seq<char>, c: char) -> int
    decreases s.len(),
{
    if s.len() == 0 {
        0
    } else if s[0] == c {
        0
    } else {
        1 + first_index(s.drop_first(), c)
    }
}

/// The position of the last `c` in `s`, or -1 where there is none.
pub open spec fn last_index(s: Seq<char>, c: char) -> int
    decreases s.len(),
{
    if s.len() == 0 {
        -1
    } else if s.last() == c {
        s.len() - 1
    } else {
        last_index(s.drop_last(), c)
    }
}

pub proof fn lemma_first_index(s: Seq<char>, c: char, i: int)
    requires
        0 <= i <= s.len(),
        forall|j: int| 0 <= j < i ==> s[j] != c,
        i == s.len() || s[i] == c,
    ensures
        first_index(s, c) == i,
    decreases s.len(),
{
    if s.len() > 0 && i > 0 {
        lemma_first_index(s.drop_first(), c, i - 1);
    }
}

pub proof fn lemma_last_index(s: Seq<char>, c: char, i: int)
    requires
        -1 <= i < s.len(),
        forall|j: int| i < j < s.len() ==> s[j] != c,
        i == -1 || s[i] == c,
    ensures
        last_index(s, c) == i,
    decreases s.len(),
{
    if s.len() > 0 && i < s.len() - 1 {
        lemma_last_index(s.drop_last(), c, i);
    }
}

/// The position of the first `c` in `v`, or its length where there is none.
pub fn find_first(v: &Vec<char>, c: char) -> (r: usize)
    ensures
        r == first_index(v@, c),
        r <= v.len(),
{
    let mut i: usize = 0;
    while i < v.len()
        invariant
            i <= v.len(),
            forall|j: int| 0 <= j < i ==> v@[j] != c,
        decreases v.len() - i,
    {
        if v[i] == c {
            proof {
                lemma_first_index(v@, c, i as int);
            }
            return i;
        }
        i = i + 1;
    }
    proof {
        lemma_first_index(v@, c, i as int);
    }
    i
}

/// The position of the last `c` in `v`, if there is one.
pub fn find_last(v: &Vec<char>, c: char) -> (r: Option<usize>)
    ensures
        match r {
            Some(i) => i == last_index(v@, c) && i < v.len(),
            None => last_index(v@, c) == -1,
        },
{
    let mut i: usize = v.len();
    while i > 0
        invariant
            i <= v.len(),
            forall|j: int| i <= j < v.len() ==> v@[j] != c,
        decreases i,
    {
        if v[i - 1] == c {
            proof {
                lemma_last_index(v@, c, i - 1);
            }
            return Some(i - 1);
        }
        i = i - 1;
    }
    proof {
        lemma_last_index(v@, c, -1);
    }
    None
}

/// `s` split at its first `c` (`str::split_once`).
pub open spec fn split_once_at(s: Seq<char>, c: char) -> Option<(Seq<char>, Seq<char>)> {
    let i = first_index(s, c);
    if i < s.len() {
        Some((s.take(i), s.skip(i + 1)))
    } else {
        None
    }
}

} // verus!
