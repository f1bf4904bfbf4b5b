use vstd::prelude::*;

use crate::paths::{normalize_file_uri, normalized_file_uri};
use crate::text::strs::{
    chars_of, contains_chars, has_infix, lemma_views_push, lower_ascii, lower_ascii_chars,
    split_chars, split_on, string_of, trim_chars, trim_in, trim_ws, trim_ws_chars, views,
    CharSet,
};

verus! {

broadcast use vstd::string::group_string_axioms;

/// A change of the system clipboard, as the watcher reports it.
pub enum ClipboardChangeEvent {
    Text(String),
    RichText { text: Option<String>, html: Option<String>, rtf: Option<String> },
    Image,
    Files { files: Vec<String>, file_count: usize, folder_count: usize },
    Unknown { formats: Vec<String> },
}

// ---------------------------------------------------------------------------
// Skipping the changes that the application makes itself
// ---------------------------------------------------------------------------

/// How many coming clipboard changes to skip, and until when (milliseconds
/// since the epoch; 0 for no window).
pub struct SuppressionState {
    pub count: usize,
    pub until_ms: u64,
}

/// The state after asking to skip the next `count` changes for
/// `duration_ms` from `now`.
pub open spec fn suppressed(count: usize, duration_ms: u64, now: u64) -> SuppressionState {
    SuppressionState {
        count,
        until_ms: if now + duration_ms > u64::MAX {
            u64::MAX
        } else {
            (now + duration_ms) as u64
        },
    }
}

/// What a clipboard change at `now` does to the state, and whether it is
/// skipped: no window or a passed window skips nothing (a passed one is
/// cleared); else one pending skip is used up, and the window closes with
/// the last one.
pub open spec fn suppress_step(s: SuppressionState, now: u64) -> (SuppressionState, bool) {
    if s.until_ms == 0 {
        (s, false)
    } else if now > s.until_ms {
        (SuppressionState { count: 0, until_ms: 0 }, false)
    } else if s.count == 0 {
        (s, false)
    } else {
        (
            SuppressionState {
                count: (s.count - 1) as usize,
                until_ms: if s.count == 1 {
                    0
                } else {
                    s.until_ms
                },
            },
            true,
        )
    }
}

/// Whether each change at the given times is skipped, from state `s` on.
pub open spec fn suppress_run(s: SuppressionState, times: Seq<u64>) -> Seq<bool>
    decreases times.len(),
{
    if times.len() == 0 {
        Seq::empty()
    } else {
        let step = suppress_step(s, times[0]);
        seq![step.1] + suppress_run(step.0, times.drop_first())
    }
}

/// Milliseconds since the Unix epoch, from `std::time::SystemTime::now`; 0
/// where the clock is before the epoch, `u64::MAX` past what a `u64` holds.
/// Nothing is claimed of the value: it is the machine's clock.
#[verifier::external_body]
fn current_time_ms() -> (now: u64) {
    std::time::SystemTime::now().duration_since(std::time::UNIX_EPOCH).map(
        |d| u64::try_from(d.as_millis()).unwrap_or(u64::MAX),
    ).unwrap_or(0)
}

impl SuppressionState {
    /// No change is skipped.
    pub fn new() -> (s: Self)
        ensures
            s.count == 0,
            s.until_ms == 0,
    {
        SuppressionState { count: 0, until_ms: 0 }
    }

    /// Skips the next `count` changes that come within `duration_ms` of `now`.
    pub fn suppress_at(&mut self, count: usize, duration_ms: u64, now: u64)
        ensures
            *final(self) == suppressed(count, duration_ms, now),
    {
        self.count = count;
        self.until_ms = now.saturating_add(duration_ms);
    }

    /// Skips the next `count` changes that come within `duration_ms` from now.
    pub fn suppress_next_clipboard_changes(&mut self, count: usize, duration_ms: u64)
        ensures
            exists|now: u64| *final(self) == suppressed(count, duration_ms, now),
    {
        let now = current_time_ms();
        self.suppress_at(count, duration_ms, now);
    }

    /// Skips no more changes.
    pub fn clear_suppressed_clipboard_changes(&mut self)
        ensures
            final(self).count == 0,
            final(self).until_ms == 0,
    {
        self.count = 0;
        self.until_ms = 0;
    }

    /// Whether a change at `now` is skipped, using up one pending skip.
    pub fn should_suppress_at(&mut self, now: u64) -> (r: bool)
        ensures
            (*final(self), r) == suppress_step(*old(self), now),
    {
        if self.until_ms == 0 {
            return false;
        }
        if now > self.until_ms {
            self.clear_suppressed_clipboard_changes();
            return false;
        }
        if self.count == 0 {
            return false;
        }
        let count = self.count;
        self.count = count - 1;
        if count == 1 {
            self.until_ms = 0;
        }
        true
    }

    /// Whether the change happening now is skipped.
    pub fn should_suppress_clipboard_change(&mut self) -> (r: bool)
        ensures
            exists|now: u64| (*final(self), r) == suppress_step(*old(self), now),
    {
        let now = current_time_ms();
        self.should_suppress_at(now)
    }
}

/// How long the change that pasting a record makes is skipped, in
/// milliseconds.
pub const PASTE_SUPPRESS_MS: u64 = 2000;

/// What follows the injection of a pasted record.
#[derive(Debug, PartialEq, Eq)]
pub enum PasteOutcome {
    /// The record is marked as used.
    MarkAccessed,
    /// The paste failed with this message; nothing is marked.
    Failed(String),
}

impl SuppressionState {
    /// Before a record's content is put on the clipboard at `now`: the one
    /// change it makes is skipped for two seconds.
    pub fn begin_paste_at(&mut self, now: u64)
        ensures
            *final(self) == suppressed(1, PASTE_SUPPRESS_MS, now),
    {
        self.suppress_at(1, PASTE_SUPPRESS_MS, now);
    }

    /// After the injection (`None` where the record had no content to put on
    /// the clipboard): a failed injection ends the skipping and fails with
    /// its message; otherwise the record is marked as used and the skipping
    /// stays as it was.
    pub fn finish_paste(&mut self, injected: Option<Result<(), String>>) -> (o: PasteOutcome)
        ensures
            match injected {
                Some(Err(m)) => o == PasteOutcome::Failed(m) && final(self).count == 0
                    && final(self).until_ms == 0,
                _ => o == PasteOutcome::MarkAccessed && *final(self) == *old(self),
            },
    {
        match injected {
            Some(Err(m)) => {
                self.clear_suppressed_clipboard_changes();
                PasteOutcome::Failed(m)
            },
            _ => PasteOutcome::MarkAccessed,
        }
    }
}

/// Asking to skip `count` changes for a window skips exactly the first
/// `count` changes that come inside the window, and none after them.
pub proof fn law_suppression_skips_exactly_count(
    count: usize,
    duration_ms: u64,
    now: u64,
    times: Seq<u64>,
)
    requires
        now + duration_ms > 0,
        forall|i: int|
            0 <= i < times.len() ==> #[trigger] times[i] <= suppressed(count, duration_ms, now).until_ms,
    ensures
        forall|i: int|
            0 <= i < times.len() ==> #[trigger] suppress_run(suppressed(count, duration_ms, now), times)[i]
                == (i < count),
{
    lemma_run_in_window(suppressed(count, duration_ms, now), times);
}

proof fn lemma_run_in_window(s: SuppressionState, times: Seq<u64>)
    requires
        s.until_ms > 0,
        forall|i: int| 0 <= i < times.len() ==> #[trigger] times[i] <= s.until_ms,
    ensures
        suppress_run(s, times).len() == times.len(),
        forall|i: int| 0 <= i < times.len() ==> #[trigger] suppress_run(s, times)[i] == (i < s.count),
    decreases times.len(),
{
    if times.len() > 0 {
        let step = suppress_step(s, times[0]);
        let rest = times.drop_first();
        if s.count == 0 {
            lemma_run_in_window(s, rest);
        } else if s.count == 1 {
            lemma_run_closed(step.0, rest);
        } else {
            lemma_run_in_window(step.0, rest);
        }
        assert forall|i: int| 0 <= i < times.len() implies #[trigger] suppress_run(s, times)[i] == (i
            < s.count) by {
            if i > 0 {
                assert(suppress_run(s, times)[i] == suppress_run(step.0, rest)[i - 1]);
                assert(rest[i - 1] == times[i]);
            }
        }
    }
}

proof fn lemma_run_closed(s: SuppressionState, times: Seq<u64>)
    requires
        s.until_ms == 0,
    ensures
        suppress_run(s, times).len() == times.len(),
        forall|i: int| 0 <= i < times.len() ==> !#[trigger] suppress_run(s, times)[i],
    decreases times.len(),
{
    if times.len() > 0 {
        lemma_run_closed(s, times.drop_first());
        assert forall|i: int| 0 <= i < times.len() implies !#[trigger] suppress_run(s, times)[i] by {
            if i > 0 {
                assert(suppress_run(s, times)[i] == suppress_run(s, times.drop_first())[i - 1]);
            }
        }
    }
}

/// After clearing, no change is skipped.
pub proof fn law_cleared_state_skips_nothing(times: Seq<u64>)
    ensures
        forall|i: int|
            0 <= i < times.len() ==> !#[trigger] suppress_run(
                SuppressionState { count: 0, until_ms: 0 },
                times,
            )[i],
{
    lemma_run_closed(SuppressionState { count: 0, until_ms: 0 }, times);
}

// ---------------------------------------------------------------------------
// File lists
// ---------------------------------------------------------------------------

/// The local paths of a clipboard file list: `file://` removed, blank
/// entries dropped.
pub open spec fn clipboard_file_paths_spec(files: Seq<Seq<char>>) -> Seq<Seq<char>>
    decreases files.len(),
{
    if files.len() == 0 {
        Seq::empty()
    } else {
        let rest = clipboard_file_paths_spec(files.drop_last());
        let p = normalized_file_uri(files.last());
        if trim_ws(p).len() == 0 {
            rest
        } else {
            rest.push(p)
        }
    }
}

/// The local paths of a clipboard file list.
pub fn clipboard_file_paths(files: &Vec<String>) -> (r: Vec<String>)
    ensures
        r@.map_values(|s: String| s@) == clipboard_file_paths_spec(files@.map_values(|s: String| s@)),
{
    let mut out: Vec<String> = Vec::new();
    let mut i: usize = 0;
    while i < files.len()
        invariant
            i <= files.len(),
            out@.map_values(|s: String| s@) == clipboard_file_paths_spec(
                files@.map_values(|s: String| s@).take(i as int),
            ),
        decreases files.len() - i,
    {
        let ghost before = out@.map_values(|s: String| s@);
        assert(files@.map_values(|s: String| s@).take(i + 1).drop_last() =~= files@.map_values(
            |s: String| s@,
        ).take(i as int));
        let p = normalize_file_uri(files[i].as_str());
        if trim_ws_chars(&chars_of(p)).len() > 0 {
            out.push(p.to_owned());
            assert(out@.map_values(|s: String| s@) =~= before.push(p@));
        }
        i = i + 1;
    }
    assert(files@.map_values(|s: String| s@).take(files.len() as int) =~= files@.map_values(
        |s: String| s@,
    ));
    out
}

/// The number of `true` entries.
pub open spec fn count_true(flags: Seq<bool>) -> nat
    decreases flags.len(),
{
    if flags.len() == 0 {
        0
    } else {
        count_true(flags.drop_last()) + if flags.last() {
            1nat
        } else {
            0nat
        }
    }
}

/// The file-list event for local paths, given which of them are folders:
/// none for an empty list, else the paths with the number of files and of
/// folders.
pub fn file_clipboard_event_from_paths(files: Vec<String>, is_dir: &Vec<bool>) -> (r: Option<
    ClipboardChangeEvent,
>)
    requires
        files.len() == is_dir.len(),
    ensures
        files.len() == 0 <==> r is None,
        r matches Some(ClipboardChangeEvent::Files { files: f, file_count, folder_count }) ==> f@
            == files@ && folder_count == count_true(is_dir@) && file_count + folder_count
            == files.len(),
        r is Some ==> r->0 is Files,
{
    if files.len() == 0 {
        return None;
    }
    let mut file_count: usize = 0;
    let mut folder_count: usize = 0;
    let mut i: usize = 0;
    while i < is_dir.len()
        invariant
            i <= is_dir.len(),
            folder_count == count_true(is_dir@.take(i as int)),
            file_count + folder_count == i,
        decreases is_dir.len() - i,
    {
        assert(is_dir@.take(i + 1).drop_last() =~= is_dir@.take(i as int));
        if is_dir[i] {
            folder_count = folder_count + 1;
        } else {
            file_count = file_count + 1;
        }
        i = i + 1;
    }
    assert(is_dir@.take(is_dir.len() as int) =~= is_dir@);
    Some(ClipboardChangeEvent::Files { files, file_count, folder_count })
}

/// A path as a text clipboard lists it, made local: trimmed, without
/// surrounding byte-order marks and quotes, and without `file://`.
pub open spec fn text_file_path_spec(value: Seq<char>) -> Seq<char> {
    normalized_file_uri(
        trim_ws(
            trim_in(
                trim_in(trim_in(trim_ws(value), CharSet::One('\u{feff}')), CharSet::One('"')),
                CharSet::One('\''),
            ),
        ),
    )
}

/// A path as a text clipboard lists it, made local.
pub fn normalize_text_file_path(value: &str) -> (r: String)
    ensures
        r@ == text_file_path_spec(value@),
{
    let a = trim_ws_chars(&chars_of(value));
    let b = trim_chars(&a, CharSet::One('\u{feff}'));
    let c = trim_chars(&b, CharSet::One('"'));
    let d = trim_chars(&c, CharSet::One('\''));
    let e = trim_ws_chars(&d);
    let s = string_of(&e);
    normalize_file_uri(s.as_str()).to_owned()
}

/// The non-empty local paths of the lines of a text.
pub open spec fn text_line_paths(lines: Seq<Seq<char>>) -> Seq<Seq<char>>
    decreases lines.len(),
{
    if lines.len() == 0 {
        Seq::empty()
    } else {
        let rest = text_line_paths(lines.drop_last());
        let p = text_file_path_spec(lines.last());
        if p.len() == 0 {
            rest
        } else {
            rest.push(p)
        }
    }
}

/// The paths that a text clipboard lists, where the clipboard's formats say
/// it holds a file list: one per line (a trailing carriage return goes with
/// the trimming), blank ones dropped; none without the hint or without a
/// path.
pub open spec fn text_file_list_spec(text: Seq<char>, has_file_format_hint: bool) -> Option<
    Seq<Seq<char>>,
> {
    if !has_file_format_hint {
        None
    } else {
        let paths = text_line_paths(split_on(text, '\n'));
        if paths.len() == 0 {
            None
        } else {
            Some(paths)
        }
    }
}

/// The paths that a text clipboard lists as a file list, before they are
/// checked on disk.
pub fn text_file_list_paths(text: &str, has_file_format_hint: bool) -> (r: Option<Vec<String>>)
    ensures
        match r {
            Some(v) => text_file_list_spec(text@, has_file_format_hint) == Some(
                v@.map_values(|s: String| s@),
            ),
            None => text_file_list_spec(text@, has_file_format_hint) is None,
        },
{
    if !has_file_format_hint {
        return None;
    }
    let lines = split_chars(&chars_of(text), '\n');
    let mut out: Vec<String> = Vec::new();
    let mut i: usize = 0;
    while i < lines.len()
        invariant
            i <= lines.len(),
            views(lines@) == split_on(text@, '\n'),
            out@.map_values(|s: String| s@) == text_line_paths(views(lines@).take(i as int)),
        decreases lines.len() - i,
    {
        let ghost before = out@.map_values(|s: String| s@);
        assert(views(lines@).take(i + 1).drop_last() =~= views(lines@).take(i as int));
        assert(views(lines@).take(i + 1).last() == lines@[i as int]@);
        let line = string_of(&lines[i]);
        let p = normalize_text_file_path(line.as_str());
        if p.as_str().unicode_len() > 0 {
            out.push(p);
            assert(out@.map_values(|s: String| s@) =~= before.push(p@));
        }
        i = i + 1;
    }
    assert(views(lines@).take(lines.len() as int) =~= views(lines@));
    if out.len() == 0 {
        None
    } else {
        Some(out)
    }
}

/// Whether a clipboard format name suggests a file list.
pub open spec fn format_hints_file_list(format: Seq<char>) -> bool {
    let lower = lower_ascii(format);
    has_infix(lower, "hdrop"@) || has_infix(lower, "file"@) || has_infix(lower, "uri-list"@)
        || has_infix(lower, "uniformresourcelocator"@)
}

/// Whether any clipboard format name suggests a file list.
pub fn formats_hint_file_list(formats: &[String]) -> (r: bool)
    ensures
        r == exists|i: int| 0 <= i < formats@.len() && format_hints_file_list(#[trigger] formats@[i]@),
{
    let hdrop = chars_of("hdrop");
    let file = chars_of("file");
    let uri = chars_of("uri-list");
    let url = chars_of("uniformresourcelocator");
    let mut i: usize = 0;
    while i < formats.len()
        invariant
            i <= formats@.len(),
            hdrop@ == "hdrop"@,
            file@ == "file"@,
            uri@ == "uri-list"@,
            url@ == "uniformresourcelocator"@,
            forall|k: int| 0 <= k < i ==> !format_hints_file_list(#[trigger] formats@[k]@),
        decreases formats.len() - i,
    {
        let lower = lower_ascii_chars(&chars_of(formats[i].as_str()));
        if contains_chars(&lower, &hdrop) || contains_chars(&lower, &file) || contains_chars(
            &lower,
            &uri,
        ) || contains_chars(&lower, &url) {
            assert(format_hints_file_list(formats@[i as int]@));
            return true;
        }
        i = i + 1;
    }
    false
}

// ---------------------------------------------------------------------------
// Size limits of the formats read
// ---------------------------------------------------------------------------

/// Whether a clipboard format of the given size is read, and the projected
/// total after it: a format of unknown size is read and adds nothing; a
/// format over its own limit, or one that would take the total over the
/// total limit, is skipped.
pub open spec fn read_format_decision(
    size_hint: Option<usize>,
    format_limit: u64,
    total_limit: u64,
    projected: u64,
) -> (bool, u64) {
    match size_hint {
        None => (true, projected),
        Some(size) => if size > format_limit {
            (false, projected)
        } else {
            let next: u64 = if projected + size > u64::MAX {
                u64::MAX
            } else {
                (projected + size) as u64
            };
            if next > total_limit {
                (false, projected)
            } else {
                (true, next)
            }
        },
    }
}

/// Whether a clipboard format of the given size is read; adds its size to
/// the projected total where it is.
pub fn should_read_clipboard_format(
    size_hint: Option<usize>,
    format_limit: u64,
    total_limit: u64,
    projected_size: &mut u64,
) -> (r: bool)
    ensures
        (r, *final(projected_size)) == read_format_decision(
            size_hint,
            format_limit,
            total_limit,
            *old(projected_size),
        ),
{
    let size: u64 = match size_hint {
        None => {
            return true;
        },
        Some(s) => s as u64,
    };
    if size > format_limit {
        return false;
    }
    let next_total = projected_size.saturating_add(size);
    if next_total > total_limit {
        return false;
    }
    *projected_size = next_total;
    true
}

} // verus!
