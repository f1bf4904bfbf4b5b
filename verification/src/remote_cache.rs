use vstd::prelude::*;

use crate::models::AppError;
use crate::ordering::{is_word_order, positions, sorted_by_word};
use crate::paths::{path_components, path_components_of};
use crate::remote_share::{
    invalid_remote_path_message, normalize_remote_relative_path, remote_cache_row_in_scope,
    remote_path_depth, remote_path_depth_spec, remote_relative_path_spec, row_in_scope_spec,
    SharedFileIndexRow,
};
use crate::text::strs::{chars_eq, chars_of, string_of, trim_ws, trimmed, views};

verus! {

broadcast use vstd::string::group_string_axioms;

// ---------------------------------------------------------------------------
// What a command on the local cache of a remote share names
// ---------------------------------------------------------------------------

/// The message of a cache command that names no remote user or no share.
pub open spec fn missing_ids_message() -> Seq<char> {
    "远程用户和共享 ID 不能为空"@
}

/// The message of a download that names no file.
pub open spec fn missing_name_message() -> Seq<char> {
    "远程文件名不能为空"@
}

/// The remote user, the share and the path that a cache command names: the
/// ids trimmed, the path in canonical form. Refused where the path leaves
/// the share, then where an id is blank.
pub fn cache_target(remote_user_id: &str, share_id: &str, relative_path: &str) -> (r: Result<
    (String, String, String),
    AppError,
>)
    ensures
        remote_relative_path_spec(relative_path@) is None ==> (r matches Err(
            AppError::InvalidInput(m),
        ) && m@ == invalid_remote_path_message()),
        remote_relative_path_spec(relative_path@) is Some && (trim_ws(remote_user_id@).len() == 0
            || trim_ws(share_id@).len() == 0) ==> (r matches Err(AppError::InvalidInput(m)) && m@
            == missing_ids_message()),
        remote_relative_path_spec(relative_path@) is Some && trim_ws(remote_user_id@).len() > 0
            && trim_ws(share_id@).len() > 0 ==> (r matches Ok(t) && t.0@ == trim_ws(
            remote_user_id@,
        ) && t.1@ == trim_ws(share_id@) && Some(t.2@) == remote_relative_path_spec(
            relative_path@,
        )),
{
    let user = trimmed(remote_user_id);
    let share = trimmed(share_id);
    let path = normalize_remote_relative_path(relative_path)?;
    if user.len() == 0 || share.len() == 0 {
        proof {
            reveal_strlit("远程用户和共享 ID 不能为空");
        }
        return Err(AppError::InvalidInput(String::from_str("远程用户和共享 ID 不能为空")));
    }
    Ok((string_of(&user), string_of(&share), path))
}

/// The name of a file to download, trimmed; refused where it is blank.
pub fn remote_file_name(name: &str) -> (r: Result<String, AppError>)
    ensures
        trim_ws(name@).len() == 0 ==> (r matches Err(AppError::InvalidInput(m)) && m@
            == missing_name_message()),
        trim_ws(name@).len() > 0 ==> (r matches Ok(n) && n@ == trim_ws(name@)),
{
    let n = trimmed(name);
    if n.len() == 0 {
        proof {
            reveal_strlit("远程文件名不能为空");
        }
        return Err(AppError::InvalidInput(String::from_str("远程文件名不能为空")));
    }
    Ok(string_of(&n))
}

// ---------------------------------------------------------------------------
// The index of cached remote entries
// ---------------------------------------------------------------------------

/// The index entry of a remote entry cached at `now`: it keeps its identity
/// where it was indexed before, takes the new facts, and reads as cached
/// and present.
pub fn cached_index_entry(
    existing: Option<SharedFileIndexRow>,
    remote_user_id: String,
    share_id: String,
    relative_path: String,
    name: String,
    is_dir: bool,
    local_cache_path: Option<String>,
    size: Option<i64>,
    mtime: Option<i64>,
    hash: Option<String>,
    now: i64,
) -> (r: SharedFileIndexRow)
    ensures
        match existing {
            Some(e) => r.user_id == e.user_id && r.shared_file_id == e.shared_file_id
                && r.relative_path == e.relative_path,
            None => r.user_id == remote_user_id && r.shared_file_id == share_id && r.relative_path
                == relative_path,
        },
        r.name == name,
        r.is_dir == (if is_dir {
            1i32
        } else {
            0i32
        }),
        r.local_cache_path == local_cache_path,
        r.size == size,
        r.mtime == mtime,
        r.hash == hash,
        r.remote_deleted == 0,
        r.cache_status == 2,
        r.last_accessed_at == Some(now),
        r.updated_at == Some(now),
{
    let (user_id, shared_file_id, relative_path) = match existing {
        Some(e) => (e.user_id, e.shared_file_id, e.relative_path),
        None => (remote_user_id, share_id, relative_path),
    };
    SharedFileIndexRow {
        user_id,
        shared_file_id,
        relative_path,
        name,
        is_dir: if is_dir {
            1
        } else {
            0
        },
        local_cache_path,
        size,
        mtime,
        hash,
        remote_deleted: 0,
        cache_status: 2,
        last_accessed_at: Some(now),
        updated_at: Some(now),
    }
}

/// The positions, among the first `n` index entries, of those inside the
/// chosen path (all of them for the root).
pub open spec fn in_scope(rows: Seq<SharedFileIndexRow>, path: Seq<char>, n: int) -> Seq<int>
    decreases n,
{
    if n <= 0 {
        Seq::empty()
    } else if row_in_scope_spec(path, rows[n - 1].relative_path@) {
        in_scope(rows, path, n - 1).push(n - 1)
    } else {
        in_scope(rows, path, n - 1)
    }
}

fn in_scope_rows(rows: &Vec<SharedFileIndexRow>, path: &str) -> (r: Vec<usize>)
    ensures
        positions(r@) == in_scope(rows@, path@, rows@.len() as int),
        forall|a: int| 0 <= a < r@.len() ==> (#[trigger] r@[a] as int) < rows@.len(),
{
    let mut out: Vec<usize> = Vec::new();
    let mut i: usize = 0;
    while i < rows.len()
        invariant
            i <= rows@.len(),
            positions(out@) == in_scope(rows@, path@, i as int),
            forall|a: int| 0 <= a < out@.len() ==> (#[trigger] out@[a] as int) < i,
        decreases rows.len() - i,
    {
        if remote_cache_row_in_scope(path, rows[i].relative_path.as_str()) {
            out.push(i);
            assert(positions(out@) =~= in_scope(rows@, path@, i as int).push(i as int));
        }
        i = i + 1;
    }
    out
}

/// The cache paths of the entries at `targets`, in order, for those that
/// have one.
pub open spec fn cache_paths(rows: Seq<SharedFileIndexRow>, targets: Seq<int>, n: int) -> Seq<
    Seq<char>,
>
    decreases n,
{
    if n <= 0 {
        Seq::empty()
    } else {
        let prev = cache_paths(rows, targets, n - 1);
        match rows[targets[n - 1]].local_cache_path {
            Some(p) => prev.push(p@),
            None => prev,
        }
    }
}

/// The number of components of a path, counted down so that deeper paths
/// come first in increasing order.
pub open spec fn depth_word(p: Seq<char>) -> u64 {
    (0xFFFF_FFFF_FFFF_FFFFu64 - path_components(p).len()) as u64
}

/// The depth words of the paths.
pub open spec fn depth_words(paths: Seq<Seq<char>>) -> Seq<u64> {
    paths.map_values(|p: Seq<char>| depth_word(p))
}

/// The paths in an order, one after another.
pub open spec fn ordered(paths: Seq<Seq<char>>, order: Seq<int>) -> Seq<Seq<char>> {
    order.map_values(|i: int| paths[i])
}

/// The paths without those that name the same path as the one just before
/// (`Vec::dedup` on paths, which compares them by components).
pub open spec fn dedup_paths(paths: Seq<Seq<char>>) -> Seq<Seq<char>>
    decreases paths.len(),
{
    if paths.len() <= 1 {
        paths
    } else {
        let prev = dedup_paths(paths.drop_last());
        if path_components(paths.last()) == path_components(paths[paths.len() - 2]) {
            prev
        } else {
            prev.push(paths.last())
        }
    }
}

/// What removing a cached remote entry deletes: the index entries inside it,
/// and their cache paths, deepest first, each once.
pub struct CacheRemoval {
    pub targets: Vec<usize>,
    pub paths: Vec<String>,
}

fn same_components(a: &Vec<Vec<char>>, b: &Vec<Vec<char>>) -> (r: bool)
    ensures
        r == (views(a@) == views(b@)),
{
    if a.len() != b.len() {
        assert(views(a@).len() != views(b@).len());
        return false;
    }
    let mut i: usize = 0;
    while i < a.len()
        invariant
            a@.len() == b@.len(),
            i <= a@.len(),
            forall|k: int| 0 <= k < i ==> a@[k]@ == b@[k]@,
        decreases a.len() - i,
    {
        if !chars_eq(&a[i], &b[i]) {
            assert(views(a@)[i as int] != views(b@)[i as int]);
            return false;
        }
        i = i + 1;
    }
    assert(views(a@) =~= views(b@));
    true
}

/// What removing the cached remote entry at `path` deletes, given the index
/// entries of its share: every entry inside it, and the cache paths of those
/// entries, deepest first (entries of equal depth in order), without a path
/// that names the same path as the one before it.
pub fn cache_removal(rows: &Vec<SharedFileIndexRow>, path: &str) -> (r: CacheRemoval)
    ensures
        ({
            let targets = in_scope(rows@, path@, rows@.len() as int);
            let paths = cache_paths(rows@, targets, targets.len() as int);
            &&& positions(r.targets@) == targets
            &&& exists|order: Seq<int>|
                #[trigger] is_word_order(depth_words(paths), order)
                    && r.paths@.map_values(|s: String| s@) == dedup_paths(ordered(paths, order))
        }),
{
    let targets = in_scope_rows(rows, path);
    let ghost ts = in_scope(rows@, path@, rows@.len() as int);
    let mut paths: Vec<String> = Vec::new();
    let mut words: Vec<u64> = Vec::new();
    let mut comps: Vec<Vec<Vec<char>>> = Vec::new();
    let mut j: usize = 0;
    while j < targets.len()
        invariant
            j <= targets@.len(),
            positions(targets@) == ts,
            forall|a: int| 0 <= a < targets@.len() ==> (#[trigger] targets@[a] as int) < rows@.len(),
            paths@.map_values(|s: String| s@) == cache_paths(rows@, ts, j as int),
            words@.len() == paths@.len(),
            comps@.len() == paths@.len(),
            forall|a: int| 0 <= a < paths@.len() ==> #[trigger] words@[a] == depth_word(paths@[a]@),
            forall|a: int| 0 <= a < paths@.len() ==> views((#[trigger] comps@[a])@) == path_components(paths@[a]@),
        decreases targets.len() - j,
    {
        assert(ts[j as int] == targets@[j as int] as int);
        match &rows[targets[j]].local_cache_path {
            Some(p) => {
                let c = path_components_of(&chars_of(p.as_str()));
                let count = c.len();
                proof {
                    assert(views(c@).len() == c@.len());
                }
                let w: u64 = 0xFFFF_FFFF_FFFF_FFFFu64 - (count as u64);
                let ghost before = paths@.map_values(|s: String| s@);
                paths.push(string_of(&chars_of(p.as_str())));
                words.push(w);
                comps.push(c);
                assert(paths@.map_values(|s: String| s@) =~= before.push(p@));
            },
            None => {},
        }
        j = j + 1;
    }
    let ghost ps = cache_paths(rows@, ts, ts.len() as int);
    assert(words@ =~= depth_words(ps));
    let order = sorted_by_word(&words);
    let ghost po = positions(order@);
    let mut out: Vec<String> = Vec::new();
    let mut last: Option<usize> = None;
    let mut k: usize = 0;
    while k < order.len()
        invariant
            k <= order@.len(),
            order@.len() == paths@.len(),
            po == positions(order@),
            is_word_order(words@, po),
            ps == paths@.map_values(|s: String| s@),
            comps@.len() == paths@.len(),
            forall|a: int| 0 <= a < paths@.len() ==> views((#[trigger] comps@[a])@) == path_components(paths@[a]@),
            out@.map_values(|s: String| s@) == dedup_paths(ordered(ps, po.take(k as int))),
            k == 0 <==> last is None,
            match last {
                Some(l) => k > 0 && l == order@[k - 1] && (l as int) < paths@.len(),
                None => true,
            },
        decreases order.len() - k,
    {
        let idx = order[k];
        assert(po[k as int] == idx as int);
        let ghost prev_seq = ordered(ps, po.take(k as int));
        let ghost next_seq = ordered(ps, po.take(k + 1));
        assert(next_seq.drop_last() =~= prev_seq);
        assert(next_seq.last() == ps[idx as int]);
        let keep = match last {
            Some(l) => !same_components(&comps[idx], &comps[l]),
            None => true,
        };
        if keep {
            let ghost before = out@.map_values(|s: String| s@);
            out.push(string_of(&chars_of(paths[idx].as_str())));
            assert(out@.map_values(|s: String| s@) =~= before.push(ps[idx as int]));
        }
        proof {
            if k == 0 {
                assert(next_seq.len() == 1);
            } else {
                assert(next_seq[next_seq.len() - 2] == ps[po[k - 1]]);
            }
        }
        last = Some(idx);
        k = k + 1;
    }
    assert(po.take(order@.len() as int) =~= po);
    CacheRemoval { targets, paths: out }
}

// ---------------------------------------------------------------------------
// Moving the cache of a remote entry
// ---------------------------------------------------------------------------

/// The message of a move of an entry that has no cached index entry.
pub open spec fn not_cached_message() -> Seq<char> {
    "该远程项还没有缓存，请先同步"@
}

/// The message of a move of an entry whose cache path is not recorded.
pub open spec fn cache_path_missing_message() -> Seq<char> {
    "缓存路径不存在，请重新同步"@
}

/// How to move the cache of a remote entry: its index entries by position,
/// shallowest first (entries of equal depth in order), and the position of
/// the entry itself.
pub struct CacheMove {
    pub order: Vec<usize>,
    pub root: usize,
}

/// The place in `listed` of the first entry whose path is `path`
/// (`listed.len()` where there is none).
pub open spec fn first_with_path(rows: Seq<SharedFileIndexRow>, listed: Seq<int>, path: Seq<char>) -> int
    decreases listed.len(),
{
    if listed.len() == 0 {
        0
    } else if rows[listed[0]].relative_path@ == path {
        0
    } else {
        1 + first_with_path(rows, listed.drop_first(), path)
    }
}

proof fn lemma_first_with_path(rows: Seq<SharedFileIndexRow>, listed: Seq<int>, path: Seq<char>, i: int)
    requires
        0 <= i <= listed.len(),
        forall|a: int| 0 <= a < i ==> rows[#[trigger] listed[a]].relative_path@ != path,
        i == listed.len() || rows[listed[i]].relative_path@ == path,
    ensures
        first_with_path(rows, listed, path) == i,
    decreases listed.len(),
{
    if listed.len() > 0 && i > 0 {
        assert forall|a: int| 0 <= a < i - 1 implies rows[#[trigger] listed.drop_first()[a]].relative_path@ != path by {
            assert(listed.drop_first()[a] == listed[a + 1]);
        }
        lemma_first_with_path(rows, listed.drop_first(), path, i - 1);
    }
}

/// The depths of the entries at `targets`.
pub open spec fn target_depths(rows: Seq<SharedFileIndexRow>, targets: Seq<int>) -> Seq<u64> {
    targets.map_values(|t: int| remote_path_depth_spec(rows[t].relative_path@) as u64)
}

/// How to move the cache of the remote entry at `path`, given the index
/// entries of its share: the entries inside it, shallowest first, and among
/// them the first whose path is `path`. Refused where there is no such
/// entry, or where its cache path is not recorded.
pub fn cache_move_plan(rows: &Vec<SharedFileIndexRow>, path: &str) -> (r: Result<CacheMove, AppError>)
    ensures
        exists|o: Seq<int>|
            #[trigger] is_word_order(
                target_depths(rows@, in_scope(rows@, path@, rows@.len() as int)),
                o,
            ) && ({
                let listed = o.map_values(|i: int| in_scope(rows@, path@, rows@.len() as int)[i]);
                let f = first_with_path(rows@, listed, path@);
                &&& f == listed.len() ==> (r matches Err(AppError::InvalidInput(m)) && m@
                    == not_cached_message())
                &&& f < listed.len() && rows@[listed[f]].local_cache_path is None ==> (r matches Err(
                    AppError::InvalidInput(m),
                ) && m@ == cache_path_missing_message())
                &&& f < listed.len() && rows@[listed[f]].local_cache_path is Some ==> (r matches Ok(
                    plan,
                ) && positions(plan.order@) == listed && plan.root as int == listed[f])
            }),
{
    let targets = in_scope_rows(rows, path);
    let ghost ts = in_scope(rows@, path@, rows@.len() as int);
    let ghost depths = target_depths(rows@, ts);
    proof {
        reveal_strlit("该远程项还没有缓存，请先同步");
        reveal_strlit("缓存路径不存在，请重新同步");
    }
    let mut words: Vec<u64> = Vec::new();
    let mut j: usize = 0;
    while j < targets.len()
        invariant
            j <= targets@.len(),
            positions(targets@) == ts,
            depths == target_depths(rows@, ts),
            forall|a: int| 0 <= a < targets@.len() ==> (#[trigger] targets@[a] as int) < rows@.len(),
            words@.len() == j,
            forall|a: int| 0 <= a < j ==> #[trigger] words@[a] == depths[a],
        decreases targets.len() - j,
    {
        assert(ts[j as int] == targets@[j as int] as int);
        let d = remote_path_depth(rows[targets[j]].relative_path.as_str());
        words.push(d as u64);
        j = j + 1;
    }
    assert(words@ =~= depths);
    let order = sorted_by_word(&words);
    let ghost po = positions(order@);
    let ghost listed = po.map_values(|i: int| ts[i]);
    let key = chars_of(path);
    let mut plan: Vec<usize> = Vec::new();
    let mut root_at: Option<usize> = None;
    let mut k: usize = 0;
    while k < order.len()
        invariant
            k <= order@.len(),
            order@.len() == targets@.len(),
            po == positions(order@),
            listed == po.map_values(|i: int| ts[i]),
            is_word_order(depths, po),
            positions(targets@) == ts,
            key@ == path@,
            forall|a: int| 0 <= a < targets@.len() ==> (#[trigger] targets@[a] as int) < rows@.len(),
            plan@.len() == k,
            forall|a: int| 0 <= a < k ==> #[trigger] plan@[a] as int == listed[a],
            match root_at {
                Some(f) => {
                    &&& f < k
                    &&& rows@[listed[f as int]].relative_path@ == path@
                    &&& forall|a: int| 0 <= a < f ==> rows@[#[trigger] listed[a]].relative_path@ != path@
                },
                None => forall|a: int| 0 <= a < k ==> rows@[#[trigger] listed[a]].relative_path@ != path@,
            },
        decreases order.len() - k,
    {
        assert(po[k as int] == order@[k as int] as int);
        assert(ts[po[k as int]] == targets@[order@[k as int] as int] as int);
        let t = targets[order[k]];
        plan.push(t);
        if root_at.is_none() && chars_eq(&chars_of(rows[t].relative_path.as_str()), &key) {
            root_at = Some(k);
        }
        k = k + 1;
    }
    proof {
        assert(positions(plan@) =~= listed);
    }
    let f = match root_at {
        Some(f) => f,
        None => {
            proof {
                lemma_first_with_path(rows@, listed, path@, listed.len() as int);
            }
            return Err(AppError::InvalidInput(String::from_str("该远程项还没有缓存，请先同步")));
        },
    };
    proof {
        lemma_first_with_path(rows@, listed, path@, f as int);
    }
    let root = plan[f];
    if rows[root].local_cache_path.is_none() {
        return Err(AppError::InvalidInput(String::from_str("缓存路径不存在，请重新同步")));
    }
    Ok(CacheMove { order: plan, root })
}

} // verus!
