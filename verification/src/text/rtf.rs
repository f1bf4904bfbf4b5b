use vstd::prelude::*;

use crate::text::strs::{
    chars_of, is_ascii_alpha, is_ascii_alpha_exec, is_ascii_digit_char, is_ascii_digit_exec, is_whitespace,
    is_ws, string_of, trim_ws, trim_ws_chars,
};

verus! {

// ---------------------------------------------------------------------------
// `\'hh` escapes
// ---------------------------------------------------------------------------

pub open spec fn is_hex_digit(c: char) -> bool {
    ('0' <= c && c <= '9') || ('a' <= c && c <= 'f') || ('A' <= c && c <= 'F')
}

pub open spec fn hex_value(c: char) -> int {
    if '0' <= c && c <= '9' {
        c as int - '0' as int
    } else if 'a' <= c && c <= 'f' {
        c as int - 'a' as int + 10
    } else {
        c as int - 'A' as int + 10
    }
}

/// Whether `u8::from_str_radix` accepts the two characters `hi lo` in base 16:
/// two hexadecimal digits, or a `+` sign followed by one.
pub open spec fn hex_pair_ok(hi: char, lo: char) -> bool {
    (is_hex_digit(hi) && is_hex_digit(lo)) || (hi == '+' && is_hex_digit(lo))
}

/// The value that `u8::from_str_radix` gives for `hi lo` in base 16.
pub open spec fn hex_pair_value(hi: char, lo: char) -> int {
    if hi == '+' {
        hex_value(lo)
    } else {
        16 * hex_value(hi) + hex_value(lo)
    }
}

/// The character whose code point is the byte `b` (`b as char`).
pub open spec fn byte_char(b: int) -> char {
    (b as u8) as char
}

/// `s` with every `\'hh` escape whose `hh` parses as a byte replaced by that
/// byte's character; a malformed escape is kept as written.
pub open spec fn decode_hex_escapes(s: Seq<char>) -> Seq<char>
    decreases s.len(),
{
    if s.len() == 0 {
        Seq::<char>::empty()
    } else if s[0] == '\\' && s.len() >= 2 && s[1] == '\'' {
        if s.len() >= 4 {
            let hi = s[2];
            let lo = s[3];
            if hex_pair_ok(hi, lo) {
                seq![byte_char(hex_pair_value(hi, lo))] + decode_hex_escapes(s.skip(4))
            } else {
                seq!['\\', '\'', hi, lo] + decode_hex_escapes(s.skip(4))
            }
        } else if s.len() == 3 {
            seq!['\\', '\'', s[2]]
        } else {
            seq!['\\', '\'']
        }
    } else {
        seq![s[0]] + decode_hex_escapes(s.drop_first())
    }
}

fn is_hex_digit_exec(c: char) -> (b: bool)
    ensures
        b == is_hex_digit(c),
{
    ('0' <= c && c <= '9') || ('a' <= c && c <= 'f') || ('A' <= c && c <= 'F')
}

fn hex_value_exec(c: char) -> (v: u8)
    requires
        is_hex_digit(c),
    ensures
        v as int == hex_value(c),
        v < 16,
{
    let u = c as u32;
    if '0' <= c && c <= '9' {
        (u - ('0' as u32)) as u8
    } else if 'a' <= c && c <= 'f' {
        (u - ('a' as u32) + 10) as u8
    } else {
        (u - ('A' as u32) + 10) as u8
    }
}

/// Parses `hi lo` as a base-16 byte the way `u8::from_str_radix` does.
fn parse_hex_pair(hi: char, lo: char) -> (r: Option<u8>)
    ensures
        r is Some <==> hex_pair_ok(hi, lo),
        r matches Some(b) ==> b as int == hex_pair_value(hi, lo),
{
    if !is_hex_digit_exec(lo) {
        return None;
    }
    let l = hex_value_exec(lo);
    if hi == '+' {
        Some(l)
    } else if is_hex_digit_exec(hi) {
        let h = hex_value_exec(hi);
        Some(16 * h + l)
    } else {
        None
    }
}

proof fn lemma_skip_sub(s: Seq<char>, i: int, k: int)
    requires
        0 <= i,
        0 <= k,
        i + k <= s.len(),
    ensures
        s.subrange(i, s.len() as int).skip(k) =~= s.subrange(i + k, s.len() as int),
{
}

/// Replaces `\'hh` escapes of `rtf` by the characters they encode.
fn decode_rtf_hex_escapes(rtf: &Vec<char>) -> (out: Vec<char>)
    ensures
        out@ == decode_hex_escapes(rtf@),
{
    let n = rtf.len();
    let mut out: Vec<char> = Vec::new();
    let mut i: usize = 0;
    assert(rtf@.subrange(0, n as int) =~= rtf@);
    while i < n
        invariant
            n == rtf.len(),
            i <= n,
            out@ + decode_hex_escapes(rtf@.subrange(i as int, n as int)) == decode_hex_escapes(
                rtf@,
            ),
        decreases n - i,
    {
        let ghost t = rtf@.subrange(i as int, n as int);
        let ghost before = out@;
        let ch = rtf[i];
        if ch == '\\' && n - i > 1 && rtf[i + 1] == '\'' {
            if n - i > 3 {
                let hi = rtf[i + 2];
                let lo = rtf[i + 3];
                proof {
                    lemma_skip_sub(rtf@, i as int, 4);
                }
                match parse_hex_pair(hi, lo) {
                    Some(value) => {
                        out.push(value as char);
                        assert(byte_char(hex_pair_value(hi, lo)) == value as char);
                        assert(out@ == before + seq![byte_char(hex_pair_value(hi, lo))]);
                    },
                    None => {
                        out.push('\\');
                        out.push('\'');
                        out.push(hi);
                        out.push(lo);
                        assert(out@ == before + seq!['\\', '\'', hi, lo]);
                    },
                }
                i = i + 4;
            } else if n - i > 2 {
                let hi = rtf[i + 2];
                out.push('\\');
                out.push('\'');
                out.push(hi);
                assert(out@ == before + seq!['\\', '\'', hi]);
                i = n;
                assert(rtf@.subrange(n as int, n as int) =~= Seq::<char>::empty());
            } else {
                out.push('\\');
                out.push('\'');
                assert(out@ == before + seq!['\\', '\'']);
                i = n;
                assert(rtf@.subrange(n as int, n as int) =~= Seq::<char>::empty());
            }
        } else {
            out.push(ch);
            assert(t.drop_first() =~= rtf@.subrange(i + 1, n as int));
            assert(out@ == before + seq![ch]);
            i = i + 1;
        }
    }
    assert(rtf@.subrange(n as int, n as int) =~= Seq::<char>::empty());
    out
}

// ---------------------------------------------------------------------------
// Control words and symbols
// ---------------------------------------------------------------------------

/// The number of leading characters of `t` that satisfy `p`.
pub open spec fn run_len(t: Seq<char>, alpha: bool) -> nat
    decreases t.len(),
{
    if t.len() > 0 && (if alpha {
        is_ascii_alpha(t[0])
    } else {
        is_ascii_digit_char(t[0])
    }) {
        1 + run_len(t.drop_first(), alpha)
    } else {
        0
    }
}

/// After a control word's letters, what follows it: an optional `-`, digits and
/// one optional space. The result counts the characters that belong to it.
pub open spec fn control_word_tail_len(t: Seq<char>) -> nat {
    let dash: nat = if t.len() > 0 && t[0] == '-' {
        1
    } else {
        0
    };
    let digits = run_len(t.skip(dash as int), false);
    let after = t.skip((dash + digits) as int);
    let space: nat = if after.len() > 0 && after[0] == ' ' {
        1
    } else {
        0
    };
    dash + digits + space
}

/// What follows a backslash in `t`: the number of characters that the control
/// sequence consumes, and whether it stands for a word break.
pub open spec fn control_after_backslash(t: Seq<char>) -> (nat, bool) {
    if t.len() == 0 {
        (0, false)
    } else if t[0] == '~' {
        (1, true)
    } else if is_ascii_alpha(t[0]) {
        let letters = run_len(t, true);
        (letters + control_word_tail_len(t.skip(letters as int)), true)
    } else {
        (1, false)
    }
}

proof fn lemma_run_len_bound(t: Seq<char>, alpha: bool)
    ensures
        run_len(t, alpha) <= t.len(),
    decreases t.len(),
{
    if t.len() > 0 {
        lemma_run_len_bound(t.drop_first(), alpha);
    }
}

proof fn lemma_control_bound(t: Seq<char>)
    ensures
        control_after_backslash(t).0 <= t.len(),
{
    if t.len() > 0 && is_ascii_alpha(t[0]) {
        let letters = run_len(t, true);
        lemma_run_len_bound(t, true);
        let u = t.skip(letters as int);
        let dash: nat = if u.len() > 0 && u[0] == '-' {
            1
        } else {
            0
        };
        lemma_run_len_bound(u.skip(dash as int), false);
    }
}

fn in_run(c: char, alpha: bool) -> (b: bool)
    ensures
        b == (if alpha {
            is_ascii_alpha(c)
        } else {
            is_ascii_digit_char(c)
        }),
{
    if alpha {
        is_ascii_alpha_exec(c)
    } else {
        is_ascii_digit_exec(c)
    }
}

/// Counts the characters from `pos` on that satisfy the class (`alpha` for
/// ASCII letters, otherwise ASCII digits).
fn scan_run(chars: &Vec<char>, pos: usize, alpha: bool) -> (end: usize)
    requires
        pos <= chars.len(),
    ensures
        pos <= end <= chars.len(),
        end - pos == run_len(chars@.subrange(pos as int, chars.len() as int), alpha),
{
    let n = chars.len();
    let mut j = pos;
    while j < n && in_run(chars[j], alpha)
        invariant
            n == chars.len(),
            pos <= j <= n,
            run_len(chars@.subrange(pos as int, n as int), alpha) == (j - pos) + run_len(
                chars@.subrange(j as int, n as int),
                alpha,
            ),
        decreases n - j,
    {
        assert(chars@.subrange(j as int, n as int).drop_first() =~= chars@.subrange(
            j + 1,
            n as int,
        ));
        j = j + 1;
    }
    j
}

/// Consumes the control sequence that follows a backslash at `pos - 1`; returns
/// the position after it and whether it stands for a word break.
fn consume_rtf_control(chars: &Vec<char>, pos: usize) -> (r: (usize, bool))
    requires
        pos <= chars.len(),
    ensures
        r.0 == pos + control_after_backslash(chars@.subrange(pos as int, chars.len() as int)).0,
        r.1 == control_after_backslash(chars@.subrange(pos as int, chars.len() as int)).1,
        r.0 <= chars.len(),
{
    let n = chars.len();
    let ghost t = chars@.subrange(pos as int, n as int);
    proof {
        lemma_control_bound(t);
    }
    if pos >= n {
        return (pos, false);
    }
    let c = chars[pos];
    if c == '~' {
        return (pos + 1, true);
    }
    if is_ascii_alpha_exec(c) {
        let mut j = scan_run(chars, pos, true);
        let ghost letters = run_len(t, true);
        let ghost u = t.skip(letters as int);
        assert(u =~= chars@.subrange(j as int, n as int));
        let ghost j0 = j;
        if j < n && chars[j] == '-' {
            j = j + 1;
        }
        let ghost dash: nat = if u.len() > 0 && u[0] == '-' {
            1
        } else {
            0
        };
        assert(j == j0 + dash);
        assert(u.skip(dash as int) =~= chars@.subrange(j as int, n as int));
        let j1 = scan_run(chars, j, false);
        let ghost digits = run_len(u.skip(dash as int), false);
        assert(u.skip((dash + digits) as int) =~= chars@.subrange(j1 as int, n as int));
        let mut k = j1;
        if k < n && chars[k] == ' ' {
            k = k + 1;
        }
        return (k, true);
    }
    (pos + 1, false)
}

// ---------------------------------------------------------------------------
// The plain-text scan
// ---------------------------------------------------------------------------

/// `out` with one space added when a break is pending, `out` is not empty and
/// does not already end with a space.
pub open spec fn flush_space(out: Seq<char>, pending: bool) -> Seq<char> {
    if pending && out.len() > 0 && out.last() != ' ' {
        out.push(' ')
    } else {
        out
    }
}

/// The text that the RTF scan of `s` appends to `out`, with `pending` telling
/// whether a word break is due before the next visible character.
pub open spec fn rtf_scan(s: Seq<char>, out: Seq<char>, pending: bool) -> Seq<char>
    decreases s.len(),
{
    if s.len() == 0 {
        out
    } else {
        let c = s[0];
        let rest = s.drop_first();
        if c == '\\' {
            let ctl = control_after_backslash(rest);
            if ctl.0 <= rest.len() {
                rtf_scan(rest.skip(ctl.0 as int), out, pending || ctl.1)
            } else {
                out
            }
        } else if c == '{' || c == '}' {
            rtf_scan(rest, out, true)
        } else if c == '\r' || c == '\n' || c == '\t' {
            rtf_scan(rest, flush_space(out, pending), false)
        } else if is_ws(c) {
            rtf_scan(rest, out, true)
        } else {
            rtf_scan(rest, flush_space(out, pending).push(c), false)
        }
    }
}

/// The plain text of an RTF document: `\'hh` escapes decoded, control words,
/// control symbols and group braces removed, white space runs collapsed to one
/// space and the result trimmed.
pub open spec fn rtf_plain_text(rtf: Seq<char>) -> Seq<char> {
    trim_ws(rtf_scan(decode_hex_escapes(rtf), Seq::<char>::empty(), false))
}

/// Adds the pending word break to `output`, if one is due.
fn push_space_once(output: &mut Vec<char>, pending_space: &mut bool)
    ensures
        final(output)@ == flush_space(old(output)@, *old(pending_space)),
        *final(pending_space) == false,
{
    if *pending_space && output.len() > 0 && output[output.len() - 1] != ' ' {
        output.push(' ');
    }
    *pending_space = false;
}

/// The plain text of an RTF document.
pub fn rtf_to_plain_text(rtf: &str) -> (text: String)
    ensures
        text@ == rtf_plain_text(rtf@),
{
    let source = chars_of(rtf);
    let decoded = decode_rtf_hex_escapes(&source);
    let n = decoded.len();
    let mut output: Vec<char> = Vec::new();
    let mut pending_space = false;
    let mut i: usize = 0;
    assert(decoded@.subrange(0, n as int) =~= decoded@);
    while i < n
        invariant
            n == decoded.len(),
            i <= n,
            rtf_scan(decoded@.subrange(i as int, n as int), output@, pending_space) == rtf_scan(
                decoded@,
                Seq::<char>::empty(),
                false,
            ),
        decreases n - i,
    {
        let ghost t = decoded@.subrange(i as int, n as int);
        let ch = decoded[i];
        assert(t.drop_first() =~= decoded@.subrange(i + 1, n as int));
        if ch == '\\' {
            let (next, brk) = consume_rtf_control(&decoded, i + 1);
            proof {
                lemma_control_bound(t.drop_first());
                assert(t.drop_first().skip((next - (i + 1)) as int) =~= decoded@.subrange(
                    next as int,
                    n as int,
                ));
            }
            if brk {
                pending_space = true;
            }
            i = next;
        } else if ch == '{' || ch == '}' {
            pending_space = true;
            i = i + 1;
        } else if ch == '\r' || ch == '\n' || ch == '\t' {
            push_space_once(&mut output, &mut pending_space);
            i = i + 1;
        } else if is_whitespace(ch) {
            pending_space = true;
            i = i + 1;
        } else {
            push_space_once(&mut output, &mut pending_space);
            output.push(ch);
            i = i + 1;
        }
    }
    assert(decoded@.subrange(n as int, n as int) =~= Seq::<char>::empty());
    let trimmed_output = trim_ws_chars(&output);
    string_of(&trimmed_output)
}

} // verus!
