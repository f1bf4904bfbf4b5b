use vstd::prelude::*;

use crate::text::strs::{chars_eq, chars_of, opt_str_view, push_all, string_of, trim_end_chars, trim_end_in, CharSet};
use crate::web::{name_from_relative_path, name_of_relative_path};

verus! {

broadcast use vstd::string::group_string_axioms;

/// One indexed entry of a local share.
pub struct IndexRow {
    pub local_file_id: String,
    pub relative_path: String,
    pub absolute_path: String,
    pub size: i64,
    pub mtime: i64,
    pub is_dir: i32,
    pub hash: Option<String>,
    pub dirty: i32,
    pub exists_flag: i32,
    pub last_seen_at: i64,
    pub last_hashed_at: Option<i64>,
}

/// An indexed entry as a client sees it.
pub struct SyncIndexItem {
    pub relative_path: String,
    pub name: String,
    pub is_dir: bool,
    pub size: i64,
    pub mtime: i64,
    pub hash: Option<String>,
    pub dirty: i32,
}

/// What a client holds of one file.
pub struct ClientFileMeta {
    pub relative_path: String,
    pub size: i64,
    pub mtime: i64,
    pub hash: Option<String>,
}

pub open spec fn opt_text(v: Option<String>) -> Option<Seq<char>> {
    match v {
        Some(s) => Some(s@),
        None => None,
    }
}

/// Whether `item` shows the indexed entry `row`.
pub open spec fn shows_row(item: SyncIndexItem, row: IndexRow) -> bool {
    &&& item.relative_path@ == row.relative_path@
    &&& item.name@ == name_of_relative_path(row.relative_path@)
    &&& item.is_dir == (row.is_dir == 1)
    &&& item.size == row.size
    &&& item.mtime == row.mtime
    &&& opt_text(item.hash) == opt_text(row.hash)
    &&& item.dirty == row.dirty
}

/// Whether `item` shows what a client holds of a file that the share lacks.
pub open spec fn shows_client_file(item: SyncIndexItem, f: ClientFileMeta) -> bool {
    &&& item.relative_path@ == f.relative_path@
    &&& item.name@ == name_of_relative_path(f.relative_path@)
    &&& !item.is_dir
    &&& item.size == f.size
    &&& item.mtime == f.mtime
    &&& opt_text(item.hash) == opt_text(f.hash)
    &&& item.dirty == 0
}

/// An indexed entry as a client sees it.
pub fn index_item(row: &IndexRow) -> (item: SyncIndexItem)
    ensures
        shows_row(item, *row),
{
    SyncIndexItem {
        name: name_from_relative_path(row.relative_path.as_str()),
        relative_path: row.relative_path.clone(),
        is_dir: row.is_dir == 1,
        size: row.size,
        mtime: row.mtime,
        hash: row.hash.clone(),
        dirty: row.dirty,
    }
}

fn client_item(f: &ClientFileMeta) -> (item: SyncIndexItem)
    ensures
        shows_client_file(item, *f),
{
    SyncIndexItem {
        name: name_from_relative_path(f.relative_path.as_str()),
        relative_path: f.relative_path.clone(),
        is_dir: false,
        size: f.size,
        mtime: f.mtime,
        hash: f.hash.clone(),
        dirty: 0,
    }
}

// ---------------------------------------------------------------------------
// Comparing a page of the index with what a client holds
// ---------------------------------------------------------------------------

/// The position of the last entry of `files` for `path`: a client that
/// lists a path twice is read by its last entry.
pub open spec fn last_entry(files: Seq<ClientFileMeta>, path: Seq<char>) -> Option<int>
    decreases files.len(),
{
    if files.len() == 0 {
        None
    } else if files.last().relative_path@ == path {
        Some(files.len() - 1)
    } else {
        last_entry(files.drop_last(), path)
    }
}

/// The client's entry that the row at `i` is compared with: the last entry
/// for its path, unless an earlier row had the same path and took it.
pub open spec fn row_match(rows: Seq<IndexRow>, files: Seq<ClientFileMeta>, i: int) -> Option<int> {
    if forall|j: int| 0 <= j < i ==> #[trigger] rows[j].relative_path@ != rows[i].relative_path@ {
        last_entry(files, rows[i].relative_path@)
    } else {
        None
    }
}

/// Whether the client's copy differs from the indexed file: neither size and
/// time nor a known hash agree.
pub open spec fn is_conflict(c: ClientFileMeta, r: IndexRow) -> bool {
    !(c.size == r.size && c.mtime == r.mtime) && !(c.hash is Some && opt_text(c.hash) == opt_text(
        r.hash,
    ))
}

/// The rows, among the first `n`, that the client lacks, and those whose
/// copy on the client conflicts, by position, in order.
pub open spec fn diff_rows(rows: Seq<IndexRow>, files: Seq<ClientFileMeta>, n: int) -> (
    Seq<int>,
    Seq<int>,
)
    decreases n,
{
    if n <= 0 {
        (Seq::empty(), Seq::empty())
    } else {
        let prev = diff_rows(rows, files, n - 1);
        match row_match(rows, files, n - 1) {
            None => (prev.0.push(n - 1), prev.1),
            Some(k) => if is_conflict(files[k], rows[n - 1]) {
                (prev.0, prev.1.push(n - 1))
            } else {
                prev
            },
        }
    }
}

/// Whether some row has `path`.
pub open spec fn rows_have(rows: Seq<IndexRow>, path: Seq<char>) -> bool {
    exists|j: int| 0 <= j < rows.len() && #[trigger] rows[j].relative_path@ == path
}

/// The client's entries, among the first `m`, for files that no row has:
/// one per path, its last entry, in order.
pub open spec fn missing_entries(rows: Seq<IndexRow>, files: Seq<ClientFileMeta>, m: int) -> Seq<
    int,
>
    decreases m,
{
    if m <= 0 {
        Seq::empty()
    } else {
        let prev = missing_entries(rows, files, m - 1);
        let path = files[m - 1].relative_path@;
        if last_entry(files, path) == Some(m - 1) && !rows_have(rows, path) {
            prev.push(m - 1)
        } else {
            prev
        }
    }
}

/// A page of the index compared with what a client holds.
pub struct DiffPartition {
    pub missing_on_client: Vec<SyncIndexItem>,
    pub need_download_to_client: Vec<SyncIndexItem>,
    pub conflict_candidates: Vec<SyncIndexItem>,
}

proof fn lemma_last_entry_bounds(files: Seq<ClientFileMeta>, path: Seq<char>)
    ensures
        last_entry(files, path) matches Some(k) ==> 0 <= k < files.len() && files[k].relative_path@
            == path && forall|j: int| k < j < files.len() ==> files[j].relative_path@ != path,
        last_entry(files, path) is None ==> forall|j: int|
            0 <= j < files.len() ==> files[j].relative_path@ != path,
    decreases files.len(),
{
    if files.len() > 0 {
        let init = files.drop_last();
        lemma_last_entry_bounds(init, path);
        assert forall|j: int| 0 <= j < init.len() implies #[trigger] init[j] == files[j] by {}
        if files.last().relative_path@ != path {
            assert(last_entry(files, path) == last_entry(init, path));
            if let Some(k) = last_entry(init, path) {
                assert(init[k] == files[k]);
                assert forall|j: int| k < j < files.len() implies files[j].relative_path@ != path by {
                    if j < init.len() {
                        assert(init[j] == files[j]);
                    }
                }
            } else {
                assert forall|j: int| 0 <= j < files.len() implies files[j].relative_path@ != path by {
                    if j < init.len() {
                        assert(init[j] == files[j]);
                    }
                }
            }
        }
    }
}

fn find_last_entry(files: &[ClientFileMeta], path: &Vec<char>) -> (r: Option<usize>)
    ensures
        match r {
            Some(k) => last_entry(files@, path@) == Some(k as int),
            None => last_entry(files@, path@) is None,
        },
{
    let mut i: usize = files.len();
    assert(files@.take(i as int) =~= files@);
    while i > 0
        invariant
            i <= files@.len(),
            last_entry(files@, path@) == last_entry(files@.take(i as int), path@),
        decreases i,
    {
        let ghost pre = files@.take(i as int);
        assert(pre.drop_last() =~= files@.take(i - 1));
        assert(pre.last() == files@[i - 1]);
        if chars_eq(&chars_of(files[i - 1].relative_path.as_str()), path) {
            return Some(i - 1);
        }
        i = i - 1;
    }
    None
}

fn path_seen_before(rows: &[IndexRow], i: usize, path: &Vec<char>) -> (r: bool)
    requires
        i <= rows@.len(),
    ensures
        r == exists|j: int| 0 <= j < i && #[trigger] rows@[j].relative_path@ == path@,
{
    let mut j: usize = 0;
    while j < i
        invariant
            j <= i <= rows@.len(),
            forall|k: int| 0 <= k < j ==> #[trigger] rows@[k].relative_path@ != path@,
        decreases i - j,
    {
        if chars_eq(&chars_of(rows[j].relative_path.as_str()), path) {
            assert(rows@[j as int].relative_path@ == path@);
            return true;
        }
        j = j + 1;
    }
    false
}

fn same_text(a: &Option<String>, b: &Option<String>) -> (r: bool)
    ensures
        r == (opt_text(*a) == opt_text(*b)),
{
    match (a, b) {
        (Some(x), Some(y)) => chars_eq(&chars_of(x.as_str()), &chars_of(y.as_str())),
        (None, None) => true,
        _ => false,
    }
}

/// A page of the index compared with what a client holds: the rows the
/// client lacks, the rows whose copy on the client conflicts (neither size
/// and time nor hash agree), and the client's files that no row has.
pub fn diff_index_page(rows: &[IndexRow], files: &[ClientFileMeta]) -> (r: DiffPartition)
    ensures
        r.need_download_to_client@.len() == diff_rows(rows@, files@, rows@.len() as int).0.len(),
        forall|j: int|
            0 <= j < r.need_download_to_client@.len() ==> shows_row(
                #[trigger] r.need_download_to_client@[j],
                rows@[diff_rows(rows@, files@, rows@.len() as int).0[j]],
            ),
        r.conflict_candidates@.len() == diff_rows(rows@, files@, rows@.len() as int).1.len(),
        forall|j: int|
            0 <= j < r.conflict_candidates@.len() ==> shows_row(
                #[trigger] r.conflict_candidates@[j],
                rows@[diff_rows(rows@, files@, rows@.len() as int).1[j]],
            ),
        r.missing_on_client@.len() == missing_entries(rows@, files@, files@.len() as int).len(),
        forall|j: int|
            0 <= j < r.missing_on_client@.len() ==> shows_client_file(
                #[trigger] r.missing_on_client@[j],
                files@[missing_entries(rows@, files@, files@.len() as int)[j]],
            ),
{
    let mut need: Vec<SyncIndexItem> = Vec::new();
    let mut conflicts: Vec<SyncIndexItem> = Vec::new();
    let mut i: usize = 0;
    while i < rows.len()
        invariant
            i <= rows@.len(),
            need@.len() == diff_rows(rows@, files@, i as int).0.len(),
            conflicts@.len() == diff_rows(rows@, files@, i as int).1.len(),
            forall|j: int|
                0 <= j < need@.len() ==> shows_row(
                    #[trigger] need@[j],
                    rows@[diff_rows(rows@, files@, i as int).0[j]],
                ),
            forall|j: int|
                0 <= j < conflicts@.len() ==> shows_row(
                    #[trigger] conflicts@[j],
                    rows@[diff_rows(rows@, files@, i as int).1[j]],
                ),
        decreases rows.len() - i,
    {
        let row = &rows[i];
        let path = chars_of(row.relative_path.as_str());
        let seen = path_seen_before(rows, i, &path);
        let m: Option<usize> = if seen {
            None
        } else {
            find_last_entry(files, &path)
        };
        proof {
            if seen {
                let j = choose|j: int| 0 <= j < i && #[trigger] rows@[j].relative_path@ == path@;
                assert(!(forall|j: int|
                    0 <= j < i ==> #[trigger] rows@[j].relative_path@ != rows@[i as int].relative_path@));
            }
            assert(row_match(rows@, files@, i as int) == match m {
                Some(k) => Some(k as int),
                None => None::<int>,
            });
        }
        let ghost prev = diff_rows(rows@, files@, i as int);
        match m {
            None => {
                need.push(index_item(row));
            },
            Some(k) => {
                proof {
                    lemma_last_entry_bounds(files@, path@);
                }
                let c = &files[k];
                let same_meta = c.size == row.size && c.mtime == row.mtime;
                let same_hash = c.hash.is_some() && same_text(&c.hash, &row.hash);
                if !same_meta && !same_hash {
                    conflicts.push(index_item(row));
                }
            },
        }
        proof {
            let cur = diff_rows(rows@, files@, i + 1);
            assert forall|j: int| 0 <= j < need@.len() implies shows_row(
                #[trigger] need@[j],
                rows@[cur.0[j]],
            ) by {
                if j < prev.0.len() {
                    assert(cur.0[j] == prev.0[j]);
                }
            }
            assert forall|j: int| 0 <= j < conflicts@.len() implies shows_row(
                #[trigger] conflicts@[j],
                rows@[cur.1[j]],
            ) by {
                if j < prev.1.len() {
                    assert(cur.1[j] == prev.1[j]);
                }
            }
        }
        i = i + 1;
    }
    let mut missing: Vec<SyncIndexItem> = Vec::new();
    let mut k: usize = 0;
    while k < files.len()
        invariant
            k <= files@.len(),
            missing@.len() == missing_entries(rows@, files@, k as int).len(),
            forall|j: int|
                0 <= j < missing@.len() ==> shows_client_file(
                    #[trigger] missing@[j],
                    files@[missing_entries(rows@, files@, k as int)[j]],
                ),
        decreases files.len() - k,
    {
        let f = &files[k];
        let path = chars_of(f.relative_path.as_str());
        let last = find_last_entry(files, &path);
        let in_rows = path_seen_before(rows, rows.len(), &path);
        let ghost prev = missing_entries(rows@, files@, k as int);
        let is_last = match last {
            Some(x) => x == k,
            None => false,
        };
        if is_last && !in_rows {
            missing.push(client_item(f));
        }
        proof {
            let cur = missing_entries(rows@, files@, k + 1);
            assert(rows_have(rows@, path@) == in_rows);
            assert forall|j: int| 0 <= j < missing@.len() implies shows_client_file(
                #[trigger] missing@[j],
                files@[cur[j]],
            ) by {
                if j < prev.len() {
                    assert(cur[j] == prev[j]);
                }
            }
        }
        k = k + 1;
    }
    DiffPartition {
        missing_on_client: missing,
        need_download_to_client: need,
        conflict_candidates: conflicts,
    }
}

proof fn lemma_diff_rows_members(rows: Seq<IndexRow>, files: Seq<ClientFileMeta>, n: int)
    requires
        0 <= n <= rows.len(),
    ensures
        forall|i: int|
            0 <= i < n ==> (diff_rows(rows, files, n).0.contains(i) <==> row_match(rows, files, i)
                is None),
        forall|i: int|
            0 <= i < n ==> (diff_rows(rows, files, n).1.contains(i) <==> (row_match(rows, files, i)
                matches Some(k) && is_conflict(files[k], rows[i]))),
        forall|x: int| #[trigger] diff_rows(rows, files, n).0.contains(x) ==> 0 <= x < n,
        forall|x: int| #[trigger] diff_rows(rows, files, n).1.contains(x) ==> 0 <= x < n,
    decreases n,
{
    if n > 0 {
        lemma_diff_rows_members(rows, files, n - 1);
        let prev = diff_rows(rows, files, n - 1);
        let cur = diff_rows(rows, files, n);
        assert forall|x: int| #[trigger] cur.0.contains(x) implies 0 <= x < n by {
            if cur.0 != prev.0 {
                let k = choose|k: int| 0 <= k < cur.0.len() && cur.0[k] == x;
                if k < prev.0.len() {
                    assert(prev.0.contains(x));
                }
            }
        }
        assert forall|x: int| #[trigger] cur.1.contains(x) implies 0 <= x < n by {
            if cur.1 != prev.1 {
                let k = choose|k: int| 0 <= k < cur.1.len() && cur.1[k] == x;
                if k < prev.1.len() {
                    assert(prev.1.contains(x));
                }
            }
        }
        assert forall|i: int| 0 <= i < n implies (cur.0.contains(i) <==> row_match(rows, files, i)
            is None) by {
            if i < n - 1 {
                if cur.0.contains(i) && cur.0 != prev.0 {
                    let k = choose|k: int| 0 <= k < cur.0.len() && cur.0[k] == i;
                    if k < prev.0.len() {
                        assert(prev.0.contains(i));
                    }
                }
                if prev.0.contains(i) {
                    let k = choose|k: int| 0 <= k < prev.0.len() && prev.0[k] == i;
                    if cur.0 != prev.0 {
                        assert(cur.0[k] == i);
                    }
                }
            } else {
                if row_match(rows, files, i) is None {
                    assert(cur.0[cur.0.len() - 1] == i);
                } else {
                    assert(!prev.0.contains(i));
                }
            }
        }
        assert forall|i: int| 0 <= i < n implies (cur.1.contains(i) <==> (row_match(rows, files, i)
            matches Some(k) && is_conflict(files[k], rows[i]))) by {
            if i < n - 1 {
                if cur.1.contains(i) && cur.1 != prev.1 {
                    let k = choose|k: int| 0 <= k < cur.1.len() && cur.1[k] == i;
                    if k < prev.1.len() {
                        assert(prev.1.contains(i));
                    }
                }
                if prev.1.contains(i) {
                    let k = choose|k: int| 0 <= k < prev.1.len() && prev.1[k] == i;
                    if cur.1 != prev.1 {
                        assert(cur.1[k] == i);
                    }
                }
            } else {
                if row_match(rows, files, i) matches Some(k) && is_conflict(files[k], rows[i]) {
                    assert(cur.1[cur.1.len() - 1] == i);
                } else {
                    assert(!prev.1.contains(i));
                }
            }
        }
    }
}

/// Every row of the page is reported once at most: as missing on the
/// client exactly where the client has no entry left for its path, as a
/// conflict exactly where the client's entry differs; never as both.
pub proof fn law_diff_sorts_each_row_once(rows: Seq<IndexRow>, files: Seq<ClientFileMeta>)
    ensures
        forall|i: int|
            0 <= i < rows.len() ==> (diff_rows(rows, files, rows.len() as int).0.contains(i)
                <==> row_match(rows, files, i) is None),
        forall|i: int|
            0 <= i < rows.len() ==> (diff_rows(rows, files, rows.len() as int).1.contains(i)
                <==> (row_match(rows, files, i) matches Some(k) && is_conflict(files[k], rows[i]))),
        forall|i: int|
            0 <= i < rows.len() ==> !(diff_rows(rows, files, rows.len() as int).0.contains(i)
                && diff_rows(rows, files, rows.len() as int).1.contains(i)),
{
    lemma_diff_rows_members(rows, files, rows.len() as int);
}

// ---------------------------------------------------------------------------
// Paging
// ---------------------------------------------------------------------------

/// The page and page size that an index query asks for: page 1 at least,
/// 200 entries by default, between 1 and 2000; and the entries it skips.
pub open spec fn paging_spec(page: Option<u64>, page_size: Option<u64>) -> (int, int, int) {
    let p: int = match page {
        Some(v) => if v < 1 {
            1
        } else {
            v as int
        },
        None => 1,
    };
    let s: int = match page_size {
        Some(v) => if v < 1 {
            1
        } else if v > 2000 {
            2000
        } else {
            v as int
        },
        None => 200,
    };
    (p, s, (p - 1) * s)
}

/// The page, page size and offset that an index query asks for.
pub fn paging(page: Option<u64>, page_size: Option<u64>) -> (r: (u64, u64, u64))
    requires
        paging_spec(page, page_size).2 <= u64::MAX,
    ensures
        r.0 == paging_spec(page, page_size).0,
        r.1 == paging_spec(page, page_size).1,
        r.2 == paging_spec(page, page_size).2,
{
    let p: u64 = match page {
        Some(v) => if v < 1 {
            1
        } else {
            v
        },
        None => 1,
    };
    let s: u64 = match page_size {
        Some(v) => if v < 1 {
            1
        } else if v > 2000 {
            2000
        } else {
            v
        },
        None => 200,
    };
    (p, s, (p - 1) * s)
}

/// Which entries a directory filter selects: the root entry itself for
/// `.`, else those whose path matches the SQL pattern `parent/%`.
pub enum ParentSelection {
    Root,
    Under(String),
}

/// The selection of a directory filter: the root for `.`, else the
/// pattern of the paths under the directory.
pub fn parent_selection(parent: &str) -> (r: ParentSelection)
    ensures
        parent@ == seq!['.'] ==> r is Root,
        parent@ != seq!['.'] ==> (r matches ParentSelection::Under(p) && p@ == trim_end_in(
            parent@,
            CharSet::One('/'),
        ) + seq!['/', '%']),
{
    let chars = chars_of(parent);
    if chars.len() == 1 && chars[0] == '.' {
        assert(parent@ =~= seq!['.']);
        return ParentSelection::Root;
    }
    assert(parent@ != seq!['.']) by {
        if parent@ == seq!['.'] {
            assert(chars@[0] == '.');
        }
    }
    let mut p = trim_end_chars(&chars, CharSet::One('/'));
    p.push('/');
    p.push('%');
    assert(p@ =~= trim_end_in(parent@, CharSet::One('/')) + seq!['/', '%']);
    ParentSelection::Under(string_of(&p))
}

/// A row whose client copy has another size or another time of change, and
/// no equal known hash, is reported as a conflict; a row whose client copy
/// has the same size and time, or the same known hash, is not.
pub proof fn law_conflict_is_a_changed_copy(rows: Seq<IndexRow>, files: Seq<ClientFileMeta>, i: int)
    requires
        0 <= i < rows.len(),
        row_match(rows, files, i) is Some,
    ensures
        ({
            let c = files[row_match(rows, files, i)->0];
            let r = rows[i];
            let same_hash = c.hash matches Some(h) && r.hash matches Some(rh) && h@ == rh@;
            &&& (c.mtime != r.mtime || c.size != r.size) && !same_hash ==> diff_rows(
                rows,
                files,
                rows.len() as int,
            ).1.contains(i)
            &&& (c.mtime == r.mtime && c.size == r.size) ==> !diff_rows(
                rows,
                files,
                rows.len() as int,
            ).1.contains(i)
            &&& same_hash ==> !diff_rows(rows, files, rows.len() as int).1.contains(i)
            &&& !diff_rows(rows, files, rows.len() as int).0.contains(i)
        }),
{
    law_diff_sorts_each_row_once(rows, files);
}

proof fn lemma_missing_members(rows: Seq<IndexRow>, files: Seq<ClientFileMeta>, m: int)
    requires
        0 <= m <= files.len(),
    ensures
        forall|x: int|
            0 <= x < m ==> (missing_entries(rows, files, m).contains(x) <==> (last_entry(
                files,
                files[x].relative_path@,
            ) == Some(x) && !rows_have(rows, files[x].relative_path@))),
        forall|x: int| #[trigger] missing_entries(rows, files, m).contains(x) ==> 0 <= x < m,
    decreases m,
{
    if m > 0 {
        lemma_missing_members(rows, files, m - 1);
        let prev = missing_entries(rows, files, m - 1);
        let path = files[m - 1].relative_path@;
        if last_entry(files, path) == Some(m - 1) && !rows_have(rows, path) {
            let cur = prev.push(m - 1);
            assert(cur[prev.len() as int] == m - 1);
            assert forall|x: int| #[trigger] cur.contains(x) implies 0 <= x < m by {
                let k = choose|k: int| 0 <= k < cur.len() && cur[k] == x;
                if k < prev.len() {
                    assert(prev[k] == x);
                    assert(prev.contains(x));
                }
            }
            assert forall|x: int| 0 <= x < m - 1 implies (cur.contains(x) <==> prev.contains(x)) by {
                if cur.contains(x) {
                    let k = choose|k: int| 0 <= k < cur.len() && cur[k] == x;
                    if k < prev.len() {
                        assert(prev[k] == x);
                    }
                }
                if prev.contains(x) {
                    let k = choose|k: int| 0 <= k < prev.len() && prev[k] == x;
                    assert(cur[k] == x);
                }
            }
        } else {
            assert(!prev.contains(m - 1));
        }
    }
}

/// The client's files reported as missing on the share are exactly those
/// whose path no row of the page has, each by its last entry for that path.
pub proof fn law_missing_on_server_are_unindexed_files(
    rows: Seq<IndexRow>,
    files: Seq<ClientFileMeta>,
    m: int,
)
    requires
        0 <= m < files.len(),
    ensures
        missing_entries(rows, files, files.len() as int).contains(m) <==> ((forall|j: int|
            0 <= j < rows.len() ==> #[trigger] rows[j].relative_path@ != files[m].relative_path@)
            && (forall|k: int|
            m < k < files.len() ==> #[trigger] files[k].relative_path@ != files[m].relative_path@)),
{
    let path = files[m].relative_path@;
    lemma_missing_members(rows, files, files.len() as int);
    lemma_last_entry_bounds(files, path);
    if let Some(k) = last_entry(files, path) {
        if (forall|k2: int| m < k2 < files.len() ==> #[trigger] files[k2].relative_path@ != path) {
            if k < m {
                assert(files[m].relative_path@ == path);
            }
            assert(k == m);
        }
    }
    if rows_have(rows, path) {
        let j = choose|j: int| 0 <= j < rows.len() && #[trigger] rows[j].relative_path@ == path;
        assert(rows[j].relative_path@ == files[m].relative_path@);
    }
}

/// A row whose path the client holds no file for is reported as one the
/// client has to download, and not as a conflict.
pub proof fn law_unheld_rows_are_downloaded(rows: Seq<IndexRow>, files: Seq<ClientFileMeta>, i: int)
    requires
        0 <= i < rows.len(),
        forall|f: int| 0 <= f < files.len() ==> #[trigger] files[f].relative_path@ != rows[i].relative_path@,
    ensures
        diff_rows(rows, files, rows.len() as int).0.contains(i),
        !diff_rows(rows, files, rows.len() as int).1.contains(i),
{
    lemma_last_entry_bounds(files, rows[i].relative_path@);
    law_diff_sorts_each_row_once(rows, files);
    assert(row_match(rows, files, i) is None);
}

} // verus!
