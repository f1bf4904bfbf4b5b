use vstd::prelude::*;

verus! {

/// The file was shared directly.
pub const SOURCE_DIRECT: i32 = 0;

/// The file was shared through a clipboard record.
pub const SOURCE_CLIPBOARD: i32 = 1;

/// The file was shared both directly and through a clipboard record.
pub const SOURCE_DIRECT_AND_CLIPBOARD: i32 = 2;

pub const SHARE_MODE_MANUAL: i32 = 0;

pub const SHARE_MODE_TEMP: i32 = 1;

pub open spec fn direct_source(source_type: i32) -> bool {
    source_type == SOURCE_DIRECT || source_type == SOURCE_DIRECT_AND_CLIPBOARD
}

pub open spec fn clipboard_source(source_type: i32) -> bool {
    source_type == SOURCE_CLIPBOARD || source_type == SOURCE_DIRECT_AND_CLIPBOARD
}

/// The source type that has exactly the given sources, where there is one.
pub open spec fn source_type_of(direct: bool, clipboard: bool) -> Option<i32> {
    if direct && clipboard {
        Some(SOURCE_DIRECT_AND_CLIPBOARD)
    } else if direct {
        Some(SOURCE_DIRECT)
    } else if clipboard {
        Some(SOURCE_CLIPBOARD)
    } else {
        None
    }
}

/// Whether the share has a direct source.
pub fn has_direct_source(source_type: i32) -> (r: bool)
    ensures
        r == direct_source(source_type),
{
    source_type == SOURCE_DIRECT || source_type == SOURCE_DIRECT_AND_CLIPBOARD
}

/// Whether the share has a clipboard source.
pub fn has_clipboard_source(source_type: i32) -> (r: bool)
    ensures
        r == clipboard_source(source_type),
{
    source_type == SOURCE_CLIPBOARD || source_type == SOURCE_DIRECT_AND_CLIPBOARD
}

/// The source type after a clipboard record shares the file too.
pub fn source_type_after_adding_clipboard(source_type: i32) -> (r: i32)
    ensures
        Some(r) == source_type_of(direct_source(source_type), true),
{
    if has_direct_source(source_type) {
        SOURCE_DIRECT_AND_CLIPBOARD
    } else {
        SOURCE_CLIPBOARD
    }
}

/// The source type after the file is shared directly too.
pub fn source_type_after_adding_direct(source_type: i32) -> (r: i32)
    ensures
        Some(r) == source_type_of(true, clipboard_source(source_type)),
{
    if has_clipboard_source(source_type) {
        SOURCE_DIRECT_AND_CLIPBOARD
    } else {
        SOURCE_DIRECT
    }
}

/// The source type after the clipboard source goes away; `None` where no
/// source is left.
pub fn source_type_after_removing_clipboard(source_type: i32) -> (r: Option<i32>)
    ensures
        r == source_type_of(direct_source(source_type), false),
{
    if has_direct_source(source_type) {
        Some(SOURCE_DIRECT)
    } else {
        None
    }
}

/// The source type after the direct source goes away; `None` where no source
/// is left.
pub fn source_type_after_removing_direct(source_type: i32) -> (r: Option<i32>)
    ensures
        r == source_type_of(false, clipboard_source(source_type)),
{
    if has_clipboard_source(source_type) {
        Some(SOURCE_CLIPBOARD)
    } else {
        None
    }
}

/// Adding a source and then removing it again gives back the source type
/// that had the other source only (or none).
pub proof fn law_add_then_remove_clipboard(source_type: i32)
    requires
        source_type == SOURCE_DIRECT || source_type == SOURCE_CLIPBOARD || source_type
            == SOURCE_DIRECT_AND_CLIPBOARD,
    ensures
        ({
            let added = source_type_of(direct_source(source_type), true)->0;
            &&& clipboard_source(added)
            &&& direct_source(added) == direct_source(source_type)
            &&& source_type_of(direct_source(added), false) == source_type_of(
                direct_source(source_type),
                false,
            )
        }),
        ({
            let added = source_type_of(true, clipboard_source(source_type))->0;
            &&& direct_source(added)
            &&& clipboard_source(added) == clipboard_source(source_type)
            &&& source_type_of(false, clipboard_source(added)) == source_type_of(
                false,
                clipboard_source(source_type),
            )
        }),
{
}

/// Each source type names its sources: decoding the sources of a valid
/// source type gives it back.
pub proof fn law_source_type_round_trip(source_type: i32)
    requires
        source_type == SOURCE_DIRECT || source_type == SOURCE_CLIPBOARD || source_type
            == SOURCE_DIRECT_AND_CLIPBOARD,
    ensures
        source_type_of(direct_source(source_type), clipboard_source(source_type)) == Some(
            source_type,
        ),
{
}

/// The list of integers that `serde_json::from_str::<Vec<i32>>` reads from a
/// text, or `None` where it reports an error.
pub uninterp spec fn json_i32_list(text: Seq<char>) -> Option<Seq<i32>>;

/// Reads a JSON array of `i32` with `serde_json::from_str::<Vec<i32>>`. The
/// contract claims only that the outcome is a function of the text
/// (`json_i32_list`).
#[verifier::external_body]
fn parse_json_i32_list(text: &str) -> (r: Option<Vec<i32>>)
    ensures
        r is None <==> json_i32_list(text@) is None,
        r matches Some(v) ==> json_i32_list(text@) == Some(v@),
{
    serde_json::from_str::<Vec<i32>>(text).ok()
}

/// The clipboard record ids that a stored id list names: none where there is
/// no list or it does not read as a JSON array of `i32`.
pub open spec fn source_clipboard_ids(raw: Option<Seq<char>>) -> Seq<i32> {
    match raw {
        None => Seq::empty(),
        Some(text) => match json_i32_list(text) {
            Some(ids) => ids,
            None => Seq::empty(),
        },
    }
}

/// The clipboard record ids that a shared file's stored id list names.
pub fn parse_source_clipboard_ids(raw: Option<&str>) -> (ids: Vec<i32>)
    ensures
        ids@ == source_clipboard_ids(
            match raw {
                Some(t) => Some(t@),
                None => None,
            },
        ),
{
    match raw {
        None => Vec::new(),
        Some(text) => match parse_json_i32_list(text) {
            Some(ids) => ids,
            None => Vec::new(),
        },
    }
}

// ---------------------------------------------------------------------------
// Rows of shared files
// ---------------------------------------------------------------------------

/// A stored file or folder that this device shares.
pub struct LocalFileRow {
    pub id: String,
    pub path: String,
    pub kind: i32,
    pub created_at: i64,
    pub access_count: i32,
    pub is_valid: i32,
    pub size: Option<i64>,
    pub source_clipboard_id: Option<String>,
    pub source_type: i32,
    pub is_favorite: i32,
    pub share_mode: i32,
    pub expires_at: Option<i64>,
    pub updated_at: Option<i64>,
}

/// The JSON text of a list of integers, as `serde_json::to_string` writes
/// it: the decimal numbers between `[` and `]`, separated by commas, with
/// no spaces.
pub open spec fn json_int_array(ids: Seq<i32>) -> Seq<char> {
    seq!['['] + crate::text::strs::join_with(
        ids.map_values(|n: i32| crate::text::num::int_text(n as int)),
        seq![','],
    ) + seq![']']
}

/// Writes a list of integers as compact JSON, as `serde_json::to_string`
/// writes a `Vec<i32>`.
fn write_json_i32_list(ids: &Vec<i32>) -> (r: String)
    ensures
        r@ == json_int_array(ids@),
{
    let mut parts: Vec<Vec<char>> = Vec::new();
    let mut i: usize = 0;
    while i < ids.len()
        invariant
            i <= ids.len(),
            crate::text::strs::views(parts@) == ids@.take(i as int).map_values(
                |n: i32| crate::text::num::int_text(n as int),
            ),
        decreases ids.len() - i,
    {
        let part = crate::text::num::i64_text(ids[i] as i64);
        proof {
            crate::text::strs::lemma_views_push(parts@, part);
            assert(ids@.take(i + 1).map_values(|n: i32| crate::text::num::int_text(n as int))
                =~= ids@.take(i as int).map_values(|n: i32| crate::text::num::int_text(n as int)).push(
                crate::text::num::int_text(ids@[i as int] as int),
            ));
        }
        parts.push(part);
        i = i + 1;
    }
    assert(ids@.take(ids.len() as int) =~= ids@);
    let mut comma: Vec<char> = Vec::new();
    comma.push(',');
    assert(comma@ =~= seq![',']);
    let joined = crate::text::strs::join_chars(&parts, &comma);
    let mut out: Vec<char> = Vec::new();
    out.push('[');
    crate::text::strs::push_all(&mut out, &joined);
    out.push(']');
    assert(out@ =~= json_int_array(ids@));
    crate::text::strs::string_of(&out)
}

pub open spec fn opt_str(v: Option<String>) -> Option<Seq<char>> {
    match v {
        Some(s) => Some(s@),
        None => None,
    }
}

/// The row of a path that the user shares by hand: an existing row becomes
/// valid, gains the direct source (keeping its clipboard ids where it has
/// any), takes the new size and kind, and is kept until unshared; a new row
/// has the direct source only.
pub open spec fn manual_share_row_spec(
    existing: Option<LocalFileRow>,
    path: Seq<char>,
    file_type: i32,
    size: Option<i64>,
    now: i64,
    new_id: Seq<char>,
    row: LocalFileRow,
) -> bool {
    &&& row.is_valid == 1
    &&& row.size == size
    &&& row.kind == file_type
    &&& row.share_mode == SHARE_MODE_MANUAL
    &&& row.expires_at is None
    &&& row.updated_at == Some(now)
    &&& match existing {
        Some(old) => {
            &&& row.id@ == old.id@
            &&& row.path@ == old.path@
            &&& row.created_at == old.created_at
            &&& row.access_count == old.access_count
            &&& row.is_favorite == old.is_favorite
            &&& Some(row.source_type) == source_type_of(true, clipboard_source(old.source_type))
            &&& opt_str(row.source_clipboard_id) == if source_clipboard_ids(
                opt_str(old.source_clipboard_id),
            ).len() == 0 {
                None
            } else {
                opt_str(old.source_clipboard_id)
            }
        },
        None => {
            &&& row.id@ == new_id
            &&& row.path@ == path
            &&& row.created_at == now
            &&& row.access_count == 0
            &&& row.is_favorite == 0
            &&& row.source_type == SOURCE_DIRECT
            &&& row.source_clipboard_id is None
        },
    }
}

/// The row of a path that the user shares by hand.
pub fn manual_share_row(
    existing: Option<LocalFileRow>,
    path: &str,
    file_type: i32,
    size: Option<i64>,
    now: i64,
    new_id: &str,
) -> (row: LocalFileRow)
    ensures
        manual_share_row_spec(existing, path@, file_type, size, now, new_id@, row),
{
    match existing {
        Some(old) => {
            let ids = parse_source_clipboard_ids(
                match &old.source_clipboard_id {
                    Some(s) => Some(s.as_str()),
                    None => None,
                },
            );
            let source_clipboard_id = if ids.len() == 0 {
                None
            } else {
                old.source_clipboard_id
            };
            LocalFileRow {
                id: old.id,
                path: old.path,
                kind: file_type,
                created_at: old.created_at,
                access_count: old.access_count,
                is_valid: 1,
                size,
                source_clipboard_id,
                source_type: source_type_after_adding_direct(old.source_type),
                is_favorite: old.is_favorite,
                share_mode: SHARE_MODE_MANUAL,
                expires_at: None,
                updated_at: Some(now),
            }
        },
        None => LocalFileRow {
            id: new_id.to_owned(),
            path: path.to_owned(),
            kind: file_type,
            created_at: now,
            access_count: 0,
            is_valid: 1,
            size,
            source_clipboard_id: None,
            source_type: SOURCE_DIRECT,
            is_favorite: 0,
            share_mode: SHARE_MODE_MANUAL,
            expires_at: None,
            updated_at: Some(now),
        },
    }
}

/// The clipboard ids after a record shares the file too: the record's id is
/// added where it is not there yet.
pub open spec fn ids_with(ids: Seq<i32>, id: i32) -> Seq<i32> {
    if ids.contains(id) {
        ids
    } else {
        ids.push(id)
    }
}

/// The row of a path that a shared clipboard record holds: an existing row
/// becomes valid and gains the clipboard source and the record's id; it is
/// kept until unshared where it was shared directly, else only while the
/// record shares it; a new row has the clipboard source only and is kept
/// while the record shares it.
pub open spec fn clipboard_share_row_spec(
    existing: Option<LocalFileRow>,
    record_id: i32,
    file_type: i32,
    path: Seq<char>,
    size: Option<i64>,
    now: i64,
    new_id: Seq<char>,
    row: LocalFileRow,
) -> bool {
    &&& row.is_valid == 1
    &&& row.size == size
    &&& row.kind == file_type
    &&& row.updated_at == Some(now)
    &&& match existing {
        Some(old) => {
            &&& row.id@ == old.id@
            &&& row.path@ == old.path@
            &&& row.created_at == old.created_at
            &&& row.access_count == old.access_count
            &&& row.is_favorite == old.is_favorite
            &&& row.expires_at == old.expires_at
            &&& Some(row.source_type) == source_type_of(direct_source(old.source_type), true)
            &&& row.share_mode == if direct_source(old.source_type) {
                SHARE_MODE_MANUAL
            } else {
                SHARE_MODE_TEMP
            }
            &&& opt_str(row.source_clipboard_id) == Some(
                json_int_array(
                    ids_with(source_clipboard_ids(opt_str(old.source_clipboard_id)), record_id),
                ),
            )
        },
        None => {
            &&& row.id@ == new_id
            &&& row.path@ == path
            &&& row.created_at == now
            &&& row.access_count == 0
            &&& row.is_favorite == 0
            &&& row.expires_at is None
            &&& row.source_type == SOURCE_CLIPBOARD
            &&& row.share_mode == SHARE_MODE_TEMP
            &&& opt_str(row.source_clipboard_id) == Some(json_int_array(seq![record_id]))
        },
    }
}

fn contains_id(ids: &Vec<i32>, id: i32) -> (r: bool)
    ensures
        r == ids@.contains(id),
{
    let mut i: usize = 0;
    while i < ids.len()
        invariant
            i <= ids.len(),
            forall|k: int| 0 <= k < i ==> ids@[k] != id,
        decreases ids.len() - i,
    {
        if ids[i] == id {
            assert(ids@[i as int] == id);
            return true;
        }
        i = i + 1;
    }
    false
}

/// The row of a path that a shared clipboard record holds.
pub fn clipboard_share_row(
    existing: Option<LocalFileRow>,
    record_id: i32,
    file_type: i32,
    path: &str,
    size: Option<i64>,
    now: i64,
    new_id: &str,
) -> (row: LocalFileRow)
    ensures
        clipboard_share_row_spec(existing, record_id, file_type, path@, size, now, new_id@, row),
{
    match existing {
        Some(old) => {
            let mut ids = parse_source_clipboard_ids(
                match &old.source_clipboard_id {
                    Some(s) => Some(s.as_str()),
                    None => None,
                },
            );
            if !contains_id(&ids, record_id) {
                ids.push(record_id);
            }
            let share_mode = if has_direct_source(old.source_type) {
                SHARE_MODE_MANUAL
            } else {
                SHARE_MODE_TEMP
            };
            LocalFileRow {
                id: old.id,
                path: old.path,
                kind: file_type,
                created_at: old.created_at,
                access_count: old.access_count,
                is_valid: 1,
                size,
                source_clipboard_id: Some(write_json_i32_list(&ids)),
                source_type: source_type_after_adding_clipboard(old.source_type),
                is_favorite: old.is_favorite,
                share_mode,
                expires_at: old.expires_at,
                updated_at: Some(now),
            }
        },
        None => {
            let ids = vec![record_id];
            assert(ids@ =~= seq![record_id]);
            LocalFileRow {
                id: new_id.to_owned(),
                path: path.to_owned(),
                kind: file_type,
                created_at: now,
                access_count: 0,
                is_valid: 1,
                size,
                source_clipboard_id: Some(write_json_i32_list(&ids)),
                source_type: SOURCE_CLIPBOARD,
                is_favorite: 0,
                share_mode: SHARE_MODE_TEMP,
                expires_at: None,
                updated_at: Some(now),
            }
        },
    }
}

/// Sharing a path by hand keeps it shared until the user unshares it, and
/// adds the direct source to whatever source it had.
pub proof fn law_manual_share_is_direct_and_lasting(
    existing: Option<LocalFileRow>,
    path: Seq<char>,
    file_type: i32,
    size: Option<i64>,
    now: i64,
    new_id: Seq<char>,
    row: LocalFileRow,
)
    requires
        manual_share_row_spec(existing, path, file_type, size, now, new_id, row),
    ensures
        direct_source(row.source_type),
        row.share_mode == SHARE_MODE_MANUAL,
        row.expires_at is None,
        existing matches Some(old) ==> clipboard_source(row.source_type) == clipboard_source(
            old.source_type,
        ),
{
}

/// A clipboard record that shares a path is among the path's clipboard
/// sources afterwards, and a path shared by hand stays shared by hand.
pub proof fn law_clipboard_share_adds_its_record(
    existing: Option<LocalFileRow>,
    record_id: i32,
    file_type: i32,
    path: Seq<char>,
    size: Option<i64>,
    now: i64,
    new_id: Seq<char>,
    row: LocalFileRow,
)
    requires
        clipboard_share_row_spec(existing, record_id, file_type, path, size, now, new_id, row),
    ensures
        clipboard_source(row.source_type),
        existing matches Some(old) ==> ids_with(
            source_clipboard_ids(opt_str(old.source_clipboard_id)),
            record_id,
        ).contains(record_id) && direct_source(row.source_type) == direct_source(old.source_type)
            && (direct_source(old.source_type) ==> row.share_mode == SHARE_MODE_MANUAL),
{
    if let Some(old) = existing {
        let ids = source_clipboard_ids(opt_str(old.source_clipboard_id));
        if !ids.contains(record_id) {
            assert(ids.push(record_id)[ids.len() as int] == record_id);
        }
    }
}

// ---------------------------------------------------------------------------
// Withdrawing clipboard sources
// ---------------------------------------------------------------------------

/// Whether `r` is `row` with its clipboard source withdrawn at `now`: a row
/// that is also shared by hand stays, shared by hand only and kept until
/// unshared; any other row becomes invalid. Either way it names no
/// clipboard record any more.
pub open spec fn without_clipboard_source(row: LocalFileRow, now: i64, r: LocalFileRow) -> bool {
    &&& r.id == row.id
    &&& r.path == row.path
    &&& r.kind == row.kind
    &&& r.created_at == row.created_at
    &&& r.access_count == row.access_count
    &&& r.size == row.size
    &&& r.is_favorite == row.is_favorite
    &&& r.source_clipboard_id is None
    &&& r.updated_at == Some(now)
    &&& if direct_source(row.source_type) {
        &&& r.source_type == SOURCE_DIRECT
        &&& r.share_mode == SHARE_MODE_MANUAL
        &&& r.is_valid == row.is_valid
    } else {
        &&& r.source_type == row.source_type
        &&& r.share_mode == row.share_mode
        &&& r.is_valid == 0
    }
}

fn drop_clipboard_source(row: LocalFileRow, now: i64) -> (r: LocalFileRow)
    ensures
        without_clipboard_source(row, now, r),
        r.expires_at == row.expires_at,
{
    match source_type_after_removing_clipboard(row.source_type) {
        Some(next) => LocalFileRow {
            source_type: next,
            share_mode: SHARE_MODE_MANUAL,
            source_clipboard_id: None,
            updated_at: Some(now),
            ..row
        },
        None => LocalFileRow { is_valid: 0, source_clipboard_id: None, updated_at: Some(now), ..row },
    }
}

/// Whether a row shared from the clipboard names no clipboard record any
/// more.
pub open spec fn is_orphaned(row: LocalFileRow) -> bool {
    row.is_valid == 1 && clipboard_source(row.source_type) && source_clipboard_ids(
        opt_str(row.source_clipboard_id),
    ).len() == 0
}

/// A row shared from the clipboard whose records are all gone, tidied up at
/// `now`; `None` where the row still names a record (or is not shared from
/// the clipboard, or no longer valid).
pub fn orphaned_row_update(row: LocalFileRow, now: i64) -> (r: Option<LocalFileRow>)
    ensures
        is_orphaned(row) ==> (r matches Some(x) && without_clipboard_source(row, now, x)
            && x.expires_at == row.expires_at),
        !is_orphaned(row) ==> r is None,
{
    if row.is_valid != 1 || !has_clipboard_source(row.source_type) {
        return None;
    }
    let ids = parse_source_clipboard_ids(
        match &row.source_clipboard_id {
            Some(s) => Some(s.as_str()),
            None => None,
        },
    );
    if ids.len() > 0 {
        return None;
    }
    Some(drop_clipboard_source(row, now))
}

/// Whether a temporary share has run out at `now`.
pub open spec fn temp_share_expired(row: LocalFileRow, now: i64) -> bool {
    row.is_valid == 1 && row.share_mode == SHARE_MODE_TEMP && match row.expires_at {
        Some(t) => t <= now,
        None => false,
    }
}

/// A temporary share that ran out, withdrawn at `now` and no longer timed;
/// `None` where the row has not run out.
pub fn expired_row_update(row: LocalFileRow, now: i64) -> (r: Option<LocalFileRow>)
    ensures
        temp_share_expired(row, now) ==> (r matches Some(x) && without_clipboard_source(row, now, x)
            && x.expires_at is None),
        !temp_share_expired(row, now) ==> r is None,
{
    let expired = row.is_valid == 1 && row.share_mode == SHARE_MODE_TEMP && match row.expires_at {
        Some(t) => t <= now,
        None => false,
    };
    if !expired {
        return None;
    }
    let r = drop_clipboard_source(row, now);
    Some(LocalFileRow { expires_at: None, ..r })
}

/// A shared path that is gone from disk, marked invalid at `now`.
pub fn missing_row_update(row: LocalFileRow, now: i64) -> (r: LocalFileRow)
    ensures
        r == (LocalFileRow { is_valid: 0, source_clipboard_id: None, updated_at: Some(now), ..row }),
{
    LocalFileRow { is_valid: 0, source_clipboard_id: None, updated_at: Some(now), ..row }
}

/// Whether an id is another one than `id`.
pub open spec fn other_than(id: i32) -> spec_fn(i32) -> bool {
    |x: i32| x != id
}

/// The clipboard ids without `id`.
pub open spec fn ids_without(ids: Seq<i32>, id: i32) -> Seq<i32> {
    ids.filter(other_than(id))
}

/// Whether `r` is the row of a path after the clipboard record `record_id`
/// stopped sharing it at `now`: the record leaves the path's clipboard ids;
/// where none is left, the clipboard source is withdrawn but a path also
/// shared by hand stays valid; else the row stays valid with the remaining
/// ids.
pub open spec fn clipboard_unshared_row(row: LocalFileRow, record_id: i32, now: i64, r: LocalFileRow) -> bool {
    let left = ids_without(source_clipboard_ids(opt_str(row.source_clipboard_id)), record_id);
    &&& r.id == row.id
    &&& r.path == row.path
    &&& r.kind == row.kind
    &&& r.created_at == row.created_at
    &&& r.access_count == row.access_count
    &&& r.size == row.size
    &&& r.is_favorite == row.is_favorite
    &&& r.expires_at == row.expires_at
    &&& r.updated_at == Some(now)
    &&& if left.len() == 0 {
        &&& r.source_clipboard_id is None
        &&& if direct_source(row.source_type) {
            r.source_type == SOURCE_DIRECT && r.share_mode == SHARE_MODE_MANUAL && r.is_valid == 1
        } else {
            r.source_type == row.source_type && r.share_mode == row.share_mode && r.is_valid == 0
        }
    } else {
        &&& opt_str(r.source_clipboard_id) == Some(json_int_array(left))
        &&& r.source_type == row.source_type
        &&& r.share_mode == row.share_mode
        &&& r.is_valid == 1
    }
}

/// The row of a path after the clipboard record `record_id` stopped sharing
/// it at `now`; `None` where the path is not shared from the clipboard.
pub fn clipboard_unshare_row(row: LocalFileRow, record_id: i32, now: i64) -> (r: Option<LocalFileRow>)
    ensures
        !clipboard_source(row.source_type) ==> r is None,
        clipboard_source(row.source_type) ==> (r matches Some(x) && clipboard_unshared_row(
            row,
            record_id,
            now,
            x,
        )),
{
    if !has_clipboard_source(row.source_type) {
        return None;
    }
    let ids = parse_source_clipboard_ids(
        match &row.source_clipboard_id {
            Some(s) => Some(s.as_str()),
            None => None,
        },
    );
    let ghost all = ids@;
    let mut left: Vec<i32> = Vec::new();
    let mut i: usize = 0;
    while i < ids.len()
        invariant
            i <= ids@.len(),
            all == ids@,
            left@ == ids_without(all.take(i as int), record_id),
        decreases ids.len() - i,
    {
        proof {
            assert(all.take(i + 1) =~= all.take(i as int).push(all[i as int]));
            all.take(i as int).lemma_filter_push(all[i as int], other_than(record_id));
        }
        if ids[i] != record_id {
            left.push(ids[i]);
        }
        i = i + 1;
    }
    assert(all.take(ids@.len() as int) =~= all);
    if left.len() == 0 {
        let (source_type, share_mode, is_valid) = match source_type_after_removing_clipboard(row.source_type) {
            Some(next) => (next, SHARE_MODE_MANUAL, 1),
            None => (row.source_type, row.share_mode, 0),
        };
        Some(LocalFileRow { source_type, share_mode, is_valid, source_clipboard_id: None, updated_at: Some(now), ..row })
    } else {
        Some(LocalFileRow {
            source_clipboard_id: Some(write_json_i32_list(&left)),
            is_valid: 1,
            updated_at: Some(now),
            ..row
        })
    }
}

/// Withdrawing the clipboard source never ends a share that the user made
/// by hand, and ends every other share.
pub proof fn law_hand_shares_survive_clipboard_withdrawal(row: LocalFileRow, now: i64, r: LocalFileRow)
    requires
        without_clipboard_source(row, now, r),
        row.is_valid == 1,
    ensures
        direct_source(row.source_type) ==> r.is_valid == 1 && direct_source(r.source_type)
            && !clipboard_source(r.source_type),
        !direct_source(row.source_type) ==> r.is_valid == 0,
{
}

} // verus!
