use vstd::prelude::*;

use crate::paths::ROOT_RELATIVE_PATH;
use crate::sync_diff::IndexRow;

verus! {

broadcast use vstd::string::group_string_axioms;

// ---------------------------------------------------------------------------
// Keeping the index of a local share up to date
// ---------------------------------------------------------------------------

/// What the file system reports of a path inside a share.
pub struct PathFacts {
    pub is_file: bool,
    pub is_dir: bool,
    /// The length in bytes.
    pub len: u64,
    /// The time of the last change, in seconds since the Unix epoch (0
    /// where unknown).
    pub mtime: i64,
}

/// The size that the index records for a path: a file's length, 0 for
/// anything else.
pub open spec fn indexed_size(facts: PathFacts) -> i64 {
    if facts.is_file {
        facts.len as i64
    } else {
        0
    }
}

/// Whether a path has changed since its indexed entry: its size or its
/// time of change differ, or the entry was marked gone.
pub open spec fn entry_changed(old: IndexRow, facts: PathFacts) -> bool {
    old.size != indexed_size(facts) || old.mtime != facts.mtime || old.exists_flag != 1
}

/// Whether `r` is the index entry of a path seen at `now`: an existing
/// entry keeps its identity and hash and takes the new facts, and needs
/// hashing again where the path is a file that changed; a new entry needs
/// hashing where the path is a file.
pub open spec fn indexed_entry(
    existing: Option<IndexRow>,
    share_id: Seq<char>,
    relative_path: Seq<char>,
    absolute_path: Seq<char>,
    facts: PathFacts,
    now: i64,
    r: IndexRow,
) -> bool {
    &&& r.absolute_path@ == absolute_path
    &&& r.size == indexed_size(facts)
    &&& r.mtime == facts.mtime
    &&& r.is_dir == (if facts.is_dir {
        1i32
    } else {
        0i32
    })
    &&& r.exists_flag == 1
    &&& r.last_seen_at == now
    &&& match existing {
        Some(old) => {
            &&& r.local_file_id == old.local_file_id
            &&& r.relative_path == old.relative_path
            &&& r.hash == old.hash
            &&& r.last_hashed_at == old.last_hashed_at
            &&& r.dirty == if entry_changed(old, facts) && facts.is_file {
                1
            } else {
                old.dirty
            }
        },
        None => {
            &&& r.local_file_id@ == share_id
            &&& r.relative_path@ == (if relative_path.len() == 0 {
                ROOT_RELATIVE_PATH@
            } else {
                relative_path
            })
            &&& r.hash is None
            &&& r.last_hashed_at is None
            &&& r.dirty == (if facts.is_file {
                1i32
            } else {
                0i32
            })
        },
    }
}

/// The index entry of a path of the share `share_id`, seen at `now`, given
/// its entry so far (if any).
pub fn index_entry(
    existing: Option<IndexRow>,
    share_id: String,
    relative_path: String,
    absolute_path: String,
    facts: &PathFacts,
    now: i64,
) -> (r: IndexRow)
    ensures
        indexed_entry(existing, share_id@, relative_path@, absolute_path@, *facts, now, r),
{
    let size: i64 = if facts.is_file {
        facts.len as i64
    } else {
        0
    };
    let is_dir: i32 = if facts.is_dir {
        1
    } else {
        0
    };
    match existing {
        Some(old) => {
            let changed = old.size != size || old.mtime != facts.mtime || old.exists_flag != 1;
            let dirty = if changed && facts.is_file {
                1
            } else {
                old.dirty
            };
            IndexRow {
                absolute_path,
                size,
                mtime: facts.mtime,
                is_dir,
                exists_flag: 1,
                last_seen_at: now,
                dirty,
                ..old
            }
        },
        None => {
            let relative_path = if relative_path.as_str().unicode_len() == 0 {
                proof {
                    reveal_strlit(".");
                }
                String::from_str(ROOT_RELATIVE_PATH)
            } else {
                relative_path
            };
            IndexRow {
                local_file_id: share_id,
                relative_path,
                absolute_path,
                size,
                mtime: facts.mtime,
                is_dir,
                hash: None,
                dirty: if facts.is_file {
                    1
                } else {
                    0
                },
                exists_flag: 1,
                last_seen_at: now,
                last_hashed_at: None,
            }
        },
    }
}

/// An index entry whose path is gone: marked gone, and not to be hashed.
pub fn gone_entry(row: IndexRow) -> (r: IndexRow)
    ensures
        r == (IndexRow { exists_flag: 0, dirty: 0, ..row }),
{
    IndexRow { exists_flag: 0, dirty: 0, ..row }
}

/// An index entry after its file was hashed at `now` (`hash` is `None`
/// where the file could not be read): clean, with the hash and the time.
pub fn hashed_entry(row: IndexRow, hash: Option<String>, now: i64) -> (r: IndexRow)
    ensures
        r == (IndexRow { dirty: 0, hash: hash, last_hashed_at: Some(now), ..row }),
{
    IndexRow { dirty: 0, hash, last_hashed_at: Some(now), ..row }
}

/// Whether an index entry waits for hashing: a file that exists and
/// changed since it was last hashed.
pub open spec fn awaits_hash(r: IndexRow) -> bool {
    r.dirty == 1 && r.is_dir == 0 && r.exists_flag == 1
}

/// The position of the entry to hash next: of the entries that wait for
/// hashing, the one seen longest ago (the first listed among equals);
/// `None` where none waits.
pub fn next_hash_job(rows: &Vec<IndexRow>) -> (r: Option<usize>)
    ensures
        match r {
            Some(p) => {
                &&& p < rows@.len()
                &&& awaits_hash(rows@[p as int])
                &&& forall|q: int|
                    0 <= q < rows@.len() && awaits_hash(#[trigger] rows@[q]) ==> rows@[p as int].last_seen_at
                        <= rows@[q].last_seen_at
                &&& forall|q: int|
                    0 <= q < p && awaits_hash(#[trigger] rows@[q]) ==> rows@[p as int].last_seen_at
                        < rows@[q].last_seen_at
            },
            None => forall|q: int| 0 <= q < rows@.len() ==> !awaits_hash(#[trigger] rows@[q]),
        },
{
    let mut best: Option<usize> = None;
    let mut i: usize = 0;
    while i < rows.len()
        invariant
            i <= rows@.len(),
            match best {
                Some(p) => {
                    &&& p < i
                    &&& awaits_hash(rows@[p as int])
                    &&& forall|q: int|
                        0 <= q < i && awaits_hash(#[trigger] rows@[q])
                            ==> rows@[p as int].last_seen_at <= rows@[q].last_seen_at
                    &&& forall|q: int|
                        0 <= q < p && awaits_hash(#[trigger] rows@[q])
                            ==> rows@[p as int].last_seen_at < rows@[q].last_seen_at
                },
                None => forall|q: int| 0 <= q < i ==> !awaits_hash(#[trigger] rows@[q]),
            },
        decreases rows.len() - i,
    {
        let r = &rows[i];
        if r.dirty == 1 && r.is_dir == 0 && r.exists_flag == 1 {
            match best {
                Some(p) => {
                    if r.last_seen_at < rows[p].last_seen_at {
                        best = Some(i);
                    }
                },
                None => {
                    best = Some(i);
                },
            }
        }
        i = i + 1;
    }
    best
}

/// Indexing a file again that has not changed leaves its entry as clean as
/// it was, so a hashed file is not hashed again; a file that changed waits
/// for hashing.
pub proof fn law_only_changed_files_are_rehashed(
    old: IndexRow,
    share_id: Seq<char>,
    relative_path: Seq<char>,
    absolute_path: Seq<char>,
    facts: PathFacts,
    now: i64,
    r: IndexRow,
)
    requires
        indexed_entry(Some(old), share_id, relative_path, absolute_path, facts, now, r),
    ensures
        !entry_changed(old, facts) ==> r.dirty == old.dirty && r.hash == old.hash,
        entry_changed(old, facts) && facts.is_file && !facts.is_dir ==> awaits_hash(r),
{
}

/// Indexing a file again marks it for hashing where its time of change or
/// its size differs from its entry's, or its entry was marked gone; where
/// neither differs and the entry was there, it stays as clean as it was.
pub proof fn law_changed_file_is_marked_dirty(
    old: IndexRow,
    share_id: Seq<char>,
    relative_path: Seq<char>,
    absolute_path: Seq<char>,
    facts: PathFacts,
    now: i64,
    r: IndexRow,
)
    requires
        indexed_entry(Some(old), share_id, relative_path, absolute_path, facts, now, r),
    ensures
        facts.is_file && old.mtime != facts.mtime ==> r.dirty == 1,
        facts.is_file && old.size != facts.len as i64 ==> r.dirty == 1,
        facts.is_file && old.exists_flag != 1 ==> r.dirty == 1,
        facts.is_file && old.mtime == facts.mtime && old.size == facts.len as i64
            && old.exists_flag == 1 ==> r.dirty == old.dirty,
        r.mtime == facts.mtime,
        r.hash == old.hash,
{
}

/// A path indexed for the first time has no hash yet, and waits for hashing
/// exactly where it is a file; it is recorded as present, with its time of
/// change and, for a file, its length.
pub proof fn law_new_entry_waits_for_hash_if_file(
    share_id: Seq<char>,
    relative_path: Seq<char>,
    absolute_path: Seq<char>,
    facts: PathFacts,
    now: i64,
    r: IndexRow,
)
    requires
        indexed_entry(None, share_id, relative_path, absolute_path, facts, now, r),
    ensures
        r.hash is None,
        r.dirty == 1 <==> facts.is_file,
        r.dirty == 0 <==> !facts.is_file,
        r.exists_flag == 1,
        r.mtime == facts.mtime,
        facts.is_file ==> r.size == facts.len as i64,
        !facts.is_file ==> r.size == 0,
        r.last_seen_at == now,
{
}

} // verus!
