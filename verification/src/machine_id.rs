use vstd::prelude::*;

use crate::text::strs::{
    chars_of, contains_chars, is_whitespace, is_ws, split_chars, split_on, string_of, sub_chars,
    trim_end_in, trim_ws, trim_ws_chars, trimmed, views, CharSet,
};

verus! {

broadcast use vstd::string::group_string_axioms;

// ---------------------------------------------------------------------------
// Reading a machine's identifier out of what the system reports
// ---------------------------------------------------------------------------

/// The trailing run of non-space characters of `t`.
pub open spec fn word_tail(t: Seq<char>) -> Seq<char>
    decreases t.len(),
{
    if t.len() == 0 || is_ws(t.last()) {
        Seq::empty()
    } else {
        word_tail(t.drop_last()).push(t.last())
    }
}

/// The last word of `s` (`str::split_whitespace().last()`, empty where `s`
/// has no word).
pub open spec fn last_word(s: Seq<char>) -> Seq<char> {
    word_tail(trim_end_in(s, CharSet::Whitespace))
}

/// The position of the first of `lines` that holds `key`, or `lines.len()`.
pub open spec fn first_line_with(lines: Seq<Seq<char>>, key: Seq<char>) -> int
    decreases lines.len(),
{
    if lines.len() == 0 {
        0
    } else if crate::text::strs::has_infix(lines[0], key) {
        0
    } else {
        1 + first_line_with(lines.drop_first(), key)
    }
}

/// The first line of `text` that holds `key` (`str::lines().find(..)`).
pub open spec fn line_with(text: Seq<char>, key: Seq<char>) -> Option<Seq<char>> {
    let lines = split_on(text, '\n');
    let k = first_line_with(lines, key);
    if k < lines.len() {
        Some(lines[k])
    } else {
        None
    }
}

/// The machine identifier in the output of a registry query: the last word of
/// the first line that names `MachineGuid`.
pub open spec fn registry_machine_guid_spec(output: Seq<char>) -> Option<Seq<char>> {
    match line_with(output, "MachineGuid"@) {
        Some(line) => if last_word(line).len() > 0 {
            Some(last_word(line))
        } else {
            None
        },
        None => None,
    }
}

/// The machine identifier in the output of a hardware query: the fourth
/// piece between quotes of the first line that names `IOPlatformUUID`,
/// trimmed.
pub open spec fn platform_uuid_spec(output: Seq<char>) -> Option<Seq<char>> {
    match line_with(output, "IOPlatformUUID"@) {
        Some(line) => {
            let pieces = split_on(line, '"');
            if pieces.len() > 3 && trim_ws(pieces[3]).len() > 0 {
                Some(trim_ws(pieces[3]))
            } else {
                None
            }
        },
        None => None,
    }
}

/// The machine identifier held in a machine-id file: its trimmed content,
/// where that is not empty.
pub open spec fn machine_id_file_spec(content: Seq<char>) -> Option<Seq<char>> {
    if trim_ws(content).len() > 0 {
        Some(trim_ws(content))
    } else {
        None
    }
}

proof fn lemma_word_tail(t: Seq<char>, i: int)
    requires
        0 <= i <= t.len(),
        forall|j: int| i <= j < t.len() ==> !is_ws(#[trigger] t[j]),
        i == 0 || is_ws(t[i - 1]),
    ensures
        word_tail(t) == t.subrange(i, t.len() as int),
    decreases t.len(),
{
    if t.len() == 0 {
        assert(t.subrange(i, t.len() as int) =~= Seq::<char>::empty());
    } else if i == t.len() {
        assert(t.subrange(i, t.len() as int) =~= Seq::<char>::empty());
    } else {
        lemma_word_tail(t.drop_last(), i);
        assert(t.subrange(i, t.len() as int) =~= t.drop_last().subrange(
            i,
            t.drop_last().len() as int,
        ).push(t.last()));
    }
}

/// The last word of `line`.
fn last_word_of(line: &Vec<char>) -> (r: Vec<char>)
    ensures
        r@ == last_word(line@),
{
    let t = crate::text::strs::trim_end_chars(line, CharSet::Whitespace);
    let mut i: usize = t.len();
    while i > 0 && !is_whitespace(t[i - 1])
        invariant
            i <= t@.len(),
            forall|j: int| i <= j < t@.len() ==> !is_ws(#[trigger] t@[j]),
        decreases i,
    {
        i = i - 1;
    }
    proof {
        lemma_word_tail(t@, i as int);
    }
    sub_chars(&t, i, t.len())
}

proof fn lemma_first_line_with(lines: Seq<Seq<char>>, key: Seq<char>, k: int)
    requires
        0 <= k <= lines.len(),
        forall|j: int| 0 <= j < k ==> !crate::text::strs::has_infix(#[trigger] lines[j], key),
        k == lines.len() || crate::text::strs::has_infix(lines[k], key),
    ensures
        first_line_with(lines, key) == k,
    decreases lines.len(),
{
    if lines.len() > 0 && k > 0 {
        assert forall|j: int| 0 <= j < k - 1 implies !crate::text::strs::has_infix(
            #[trigger] lines.drop_first()[j],
            key,
        ) by {
            assert(lines.drop_first()[j] == lines[j + 1]);
        }
        lemma_first_line_with(lines.drop_first(), key, k - 1);
    }
}

/// The first line of `text` that holds `key`.
fn find_line_with(text: &str, key: &str) -> (r: Option<Vec<char>>)
    ensures
        match r {
            Some(l) => line_with(text@, key@) == Some(l@),
            None => line_with(text@, key@) is None,
        },
{
    let lines = split_chars(&chars_of(text), '\n');
    let k = chars_of(key);
    let ghost ls = views(lines@);
    let mut i: usize = 0;
    while i < lines.len()
        invariant
            i <= lines@.len(),
            k@ == key@,
            ls == views(lines@),
            ls == split_on(text@, '\n'),
            forall|j: int| 0 <= j < i ==> !crate::text::strs::has_infix(#[trigger] ls[j], key@),
        decreases lines.len() - i,
    {
        if contains_chars(&lines[i], &k) {
            assert(ls[i as int] == lines@[i as int]@);
            proof {
                lemma_first_line_with(ls, key@, i as int);
            }
            return Some(sub_chars(&lines[i], 0, lines[i].len()));
        }
        assert(ls[i as int] == lines@[i as int]@);
        i = i + 1;
    }
    proof {
        lemma_first_line_with(ls, key@, i as int);
    }
    None
}

/// The machine identifier in the output of a registry query of the
/// cryptography key: the last word of the first line naming `MachineGuid`.
pub fn registry_machine_guid(output: &str) -> (r: Option<String>)
    ensures
        match r {
            Some(id) => registry_machine_guid_spec(output@) == Some(id@),
            None => registry_machine_guid_spec(output@) is None,
        },
{
    proof {
        reveal_strlit("MachineGuid");
    }
    match find_line_with(output, "MachineGuid") {
        Some(line) => {
            let w = last_word_of(&line);
            if w.len() > 0 {
                Some(string_of(&w))
            } else {
                None
            }
        },
        None => None,
    }
}

/// The machine identifier in the output of a hardware registry query: the
/// quoted value on the first line naming `IOPlatformUUID`.
pub fn platform_uuid(output: &str) -> (r: Option<String>)
    ensures
        match r {
            Some(id) => platform_uuid_spec(output@) == Some(id@),
            None => platform_uuid_spec(output@) is None,
        },
{
    proof {
        reveal_strlit("IOPlatformUUID");
    }
    match find_line_with(output, "IOPlatformUUID") {
        Some(line) => {
            let pieces = split_chars(&line, '"');
            proof {
                assert(views(pieces@) == split_on(line@, '"'));
            }
            if pieces.len() > 3 {
                let v = trim_ws_chars(&pieces[3]);
                assert(views(pieces@)[3] == pieces@[3]@);
                if v.len() > 0 {
                    Some(string_of(&v))
                } else {
                    None
                }
            } else {
                None
            }
        },
        None => None,
    }
}

/// The machine identifier in the content of a machine-id file.
pub fn machine_id_file_value(content: &str) -> (r: Option<String>)
    ensures
        match r {
            Some(id) => machine_id_file_spec(content@) == Some(id@),
            None => machine_id_file_spec(content@) is None,
        },
{
    let v = trimmed(content);
    if v.len() > 0 {
        Some(string_of(&v))
    } else {
        None
    }
}

} // verus!
