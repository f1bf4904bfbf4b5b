use vstd::prelude::*;

use crate::models::ClipboardRecord;
use crate::ordering::{is_word_order, positions, sorted_by_word};

verus! {

// ---------------------------------------------------------------------------
// Which records the periodic cleanup removes
// ---------------------------------------------------------------------------

/// The most days that chrono's `TimeDelta::days` accepts: a span of at most
/// `i64::MAX` milliseconds.
pub const MAX_CLEANUP_DAYS: u64 = 106751991167;

/// The earliest moment that chrono's `DateTime<Utc>` holds (the start of the
/// year -262143), in seconds since the Unix epoch.
pub const MIN_CUTOFF_TIMESTAMP: i64 = -8334601315200;

/// Whether the age limit, counted back from `now`, stays inside what chrono
/// can compute.
pub open spec fn cutoff_in_range(now: i64, days: Option<u64>) -> bool {
    match days {
        Some(d) => d <= MAX_CLEANUP_DAYS && now - d * 86400 >= MIN_CUTOFF_TIMESTAMP,
        None => true,
    }
}

/// The moment before which records expire: `days` whole days before `now`.
pub open spec fn age_cutoff(now: i64, days: Option<u64>) -> Option<int> {
    match days {
        Some(d) => Some(now - d * 86400),
        None => None,
    }
}

/// Whether a record expires by age: it was created before the cutoff.
pub open spec fn expires_by_age(r: ClipboardRecord, cutoff: Option<int>) -> bool {
    match cutoff {
        Some(c) => r.created_at < c,
        None => false,
    }
}

/// Whether a record counts against the limit on the number of records: it
/// did not expire by age.
pub open spec fn count_candidate(r: ClipboardRecord, cutoff: Option<int>) -> bool {
    !expires_by_age(r, cutoff)
}

/// The positions, among the first `n`, of the records that expire by age.
pub open spec fn age_expired(recs: Seq<ClipboardRecord>, cutoff: Option<int>, n: int) -> Seq<int>
    decreases n,
{
    if n <= 0 {
        Seq::empty()
    } else if expires_by_age(recs[n - 1], cutoff) {
        age_expired(recs, cutoff, n - 1).push(n - 1)
    } else {
        age_expired(recs, cutoff, n - 1)
    }
}

/// The positions, among the first `n`, of the records that count against
/// the limit on the number of records.
pub open spec fn candidates(recs: Seq<ClipboardRecord>, cutoff: Option<int>, n: int) -> Seq<int>
    decreases n,
{
    if n <= 0 {
        Seq::empty()
    } else if count_candidate(recs[n - 1], cutoff) {
        candidates(recs, cutoff, n - 1).push(n - 1)
    } else {
        candidates(recs, cutoff, n - 1)
    }
}

/// Whether the record at `x` is older than the one at `y`: created earlier,
/// or at the same time and listed first.
pub open spec fn older(recs: Seq<ClipboardRecord>, x: int, y: int) -> bool {
    recs[x].created_at < recs[y].created_at || (recs[x].created_at == recs[y].created_at && x < y)
}

/// How many records over the limit there are.
pub open spec fn overflow_count(total: int, max_items: Option<usize>) -> int {
    match max_items {
        Some(m) => if total > m {
            total - m
        } else {
            0
        },
        None => 0,
    }
}

/// The records a cleanup removes, by position: first those that expired by
/// age, then the oldest of the rest beyond the limit on their number.
pub struct CleanupPlan {
    pub by_age: Vec<usize>,
    pub by_count: Vec<usize>,
}

/// The age cutoff, `days` whole days before `now`.
fn cutoff_of(now: i64, days: u64) -> (c: i64)
    requires
        cutoff_in_range(now, Some(days)),
    ensures
        c == now - days * 86400,
{
    now - (days as i64) * 86400
}

/// The word that orders timestamps as `u64` values do.
fn biased(t: i64) -> (w: u64)
    ensures
        w == t + 0x8000_0000_0000_0000,
{
    if t >= 0 {
        (t as u64) + 0x8000_0000_0000_0000u64
    } else {
        ((t + i64::MAX) + 1) as u64
    }
}

proof fn lemma_candidates_step(recs: Seq<ClipboardRecord>, cutoff: Option<int>, n: int)
    requires
        0 <= n,
    ensures
        forall|a: int| 0 <= a < candidates(recs, cutoff, n).len() ==> 0 <= #[trigger] candidates(
            recs,
            cutoff,
            n,
        )[a] < n && count_candidate(recs[candidates(recs, cutoff, n)[a]], cutoff),
        forall|a: int, b: int|
            0 <= a < b < candidates(recs, cutoff, n).len() ==> #[trigger] candidates(
                recs,
                cutoff,
                n,
            )[a] < #[trigger] candidates(recs, cutoff, n)[b],
        forall|x: int|
            0 <= x < n && count_candidate(recs[x], cutoff) ==> #[trigger] candidates(
                recs,
                cutoff,
                n,
            ).contains(x),
    decreases n,
{
    if n > 0 {
        lemma_candidates_step(recs, cutoff, n - 1);
        let prev = candidates(recs, cutoff, n - 1);
        if count_candidate(recs[n - 1], cutoff) {
            let cur = prev.push(n - 1);
            assert forall|x: int| 0 <= x < n && count_candidate(recs[x], cutoff) implies cur.contains(
                x,
            ) by {
                if x < n - 1 {
                    assert(prev.contains(x));
                    let i = choose|i: int| 0 <= i < prev.len() && prev[i] == x;
                    assert(cur[i] == x);
                } else {
                    assert(cur[prev.len() as int] == x);
                }
            }
        }
    }
}

/// Whether `by_age` and `by_count` are the positions of the records that a
/// cleanup at `now` removes: by age, those that expire, in order; by count,
/// as many of the remaining candidates as exceed the limit, oldest first,
/// each older than every candidate that stays.
pub open spec fn is_cleanup_plan(
    records: Seq<ClipboardRecord>,
    now: i64,
    cleanup_after_days: Option<u64>,
    max_items: Option<usize>,
    by_age: Seq<int>,
    by_count: Seq<int>,
) -> bool {
    let cutoff = age_cutoff(now, cleanup_after_days);
    let cand = candidates(records, cutoff, records.len() as int);
    &&& by_age == age_expired(records, cutoff, records.len() as int)
    &&& by_count.len() == overflow_count(cand.len() as int, max_items)
    &&& forall|a: int| 0 <= a < by_count.len() ==> cand.contains(#[trigger] by_count[a])
    &&& forall|a: int, b: int|
        0 <= a < b < by_count.len() ==> older(records, #[trigger] by_count[a], #[trigger] by_count[b])
    &&& forall|a: int, u: int|
        0 <= a < by_count.len() && #[trigger] cand.contains(u) && !by_count.contains(u) ==> older(
            records,
            #[trigger] by_count[a],
            u,
        )
}

/// Which records a cleanup at `now` removes, given every stored record: with
/// an age limit, the records created more than that many days before `now`;
/// then, with a limit on the number of records, the oldest of the remaining
/// records, as many as exceed the limit (records created at the same time
/// leave in the order they are listed). Favorites are no exception: the
/// settings promise that no record outlives the age limit and that at most
/// `max_items` records are kept.
pub fn cleanup_plan(
    records: &Vec<ClipboardRecord>,
    now: i64,
    cleanup_after_days: Option<u64>,
    max_items: Option<usize>,
) -> (plan: CleanupPlan)
    requires
        cutoff_in_range(now, cleanup_after_days),
    ensures
        is_cleanup_plan(
            records@,
            now,
            cleanup_after_days,
            max_items,
            positions(plan.by_age@),
            positions(plan.by_count@),
        ),
{
    let ghost cutoff = age_cutoff(now, cleanup_after_days);
    let cut: Option<i64> = match cleanup_after_days {
        Some(d) => Some(cutoff_of(now, d)),
        None => None,
    };
    let mut by_age: Vec<usize> = Vec::new();
    let mut cand: Vec<usize> = Vec::new();
    let mut i: usize = 0;
    while i < records.len()
        invariant
            i <= records@.len(),
            cutoff == age_cutoff(now, cleanup_after_days),
            match cut {
                Some(c) => cutoff == Some(c as int),
                None => cutoff is None,
            },
            positions(by_age@) == age_expired(records@, cutoff, i as int),
            positions(cand@) == candidates(records@, cutoff, i as int),
        decreases records.len() - i,
    {
        let r = &records[i];
        let expired = match cut {
            Some(c) => r.created_at < c,
            None => false,
        };
        if expired {
            by_age.push(i);
            assert(positions(by_age@) =~= age_expired(records@, cutoff, i as int).push(i as int));
        } else {
            cand.push(i);
            assert(positions(cand@) =~= candidates(records@, cutoff, i as int).push(i as int));
        }
        i = i + 1;
    }
    let ghost cs = positions(cand@);
    proof {
        lemma_candidates_step(records@, cutoff, records@.len() as int);
        assert forall|a: int| 0 <= a < cand@.len() implies (#[trigger] cand@[a] as int)
            < records@.len() by {
            assert(cs[a] == cand@[a] as int);
        }
    }
    let mut words: Vec<u64> = Vec::new();
    let mut j: usize = 0;
    while j < cand.len()
        invariant
            j <= cand@.len(),
            words@.len() == j,
            cs == positions(cand@),
            forall|a: int| 0 <= a < cand@.len() ==> (#[trigger] cand@[a] as int) < records@.len(),
            forall|a: int|
                0 <= a < j ==> #[trigger] words@[a] == records@[cand@[a] as int].created_at
                    + 0x8000_0000_0000_0000,
        decreases cand.len() - j,
    {
        proof {
            assert(cs[j as int] == cand@[j as int] as int);
        }
        words.push(biased(records[cand[j]].created_at));
        j = j + 1;
    }
    let order = sorted_by_word(&words);
    let ghost po = positions(order@);
    let total = cand.len();
    let k: usize = match max_items {
        Some(m) => if total > m {
            total - m
        } else {
            0
        },
        None => 0,
    };
    let mut by_count: Vec<usize> = Vec::new();
    let mut a: usize = 0;
    while a < k
        invariant
            a <= k <= total,
            total == cand@.len(),
            words@.len() == total,
            order@.len() == total,
            po == positions(order@),
            is_word_order(words@, po),
            by_count@.len() == a,
            forall|q: int| 0 <= q < a ==> (#[trigger] by_count@[q]) == cand@[order@[q] as int],
        decreases k - a,
    {
        assert(po[a as int] == order@[a as int] as int);
        by_count.push(cand[order[a]]);
        a = a + 1;
    }
    proof {
        let chosen = positions(by_count@);
        let recs = records@;
        let w = words@;
        assert(positions(by_age@) == age_expired(records@, cutoff, records@.len() as int));
        assert forall|q: int| 0 <= q < chosen.len() implies cs.contains(#[trigger] chosen[q]) by {
            let x = po[q];
            assert(0 <= x < total);
            assert(chosen[q] == cs[x]);
        }
        assert forall|p: int, q: int| 0 <= p < q < chosen.len() implies older(
            recs,
            #[trigger] chosen[p],
            #[trigger] chosen[q],
        ) by {
            assert(chosen[p] == cs[po[p]]);
            assert(chosen[q] == cs[po[q]]);
            assert(w[po[p]] < w[po[q]] || (w[po[p]] == w[po[q]] && po[p] < po[q]));
        }
        assert forall|p: int, u: int|
            0 <= p < chosen.len() && #[trigger] cs.contains(u) && !chosen.contains(u) implies older(
            recs,
            #[trigger] chosen[p],
            u,
        ) by {
            let x = choose|x: int| 0 <= x < cs.len() && cs[x] == u;
            assert(po.contains(x));
            let b = choose|b: int| 0 <= b < po.len() && po[b] == x;
            if b < chosen.len() {
                assert(chosen[b] == cs[po[b]]);
                assert(chosen.contains(u));
            }
            assert(chosen[p] == cs[po[p]]);
            assert(w[po[p]] < w[po[b]] || (w[po[p]] == w[po[b]] && po[p] < po[b]));
            if po[p] < po[b] {
                assert(cs[po[p]] < cs[po[b]]);
            } else if po[b] < po[p] {
                assert(cs[po[b]] < cs[po[p]]);
            }
        }
    }
    CleanupPlan { by_age, by_count }
}

/// What becomes of a record whose file, folder or image is gone.
#[derive(Debug, Clone, Copy, PartialEq, Eq, Structural)]
pub enum InvalidRecordAction {
    /// The record is deleted.
    Delete,
    /// The record stays, marked invalid.
    MarkInvalid,
}

/// A record whose file, folder or image is gone is deleted where automatic
/// cleanup of invalid data is on and the record is not a favorite; else it
/// stays, marked invalid.
pub fn invalid_record_action(is_favorite: i32, auto_cleanup_invalid_data: bool) -> (r:
    InvalidRecordAction)
    ensures
        r == if is_favorite != 1 && auto_cleanup_invalid_data {
            InvalidRecordAction::Delete
        } else {
            InvalidRecordAction::MarkInvalid
        },
{
    if is_favorite != 1 && auto_cleanup_invalid_data {
        InvalidRecordAction::Delete
    } else {
        InvalidRecordAction::MarkInvalid
    }
}

proof fn lemma_age_expired(recs: Seq<ClipboardRecord>, cutoff: Option<int>, n: int)
    requires
        0 <= n,
    ensures
        forall|a: int| 0 <= a < age_expired(recs, cutoff, n).len() ==> 0 <= #[trigger] age_expired(
            recs,
            cutoff,
            n,
        )[a] < n && expires_by_age(recs[age_expired(recs, cutoff, n)[a]], cutoff),
        forall|a: int, b: int|
            0 <= a < b < age_expired(recs, cutoff, n).len() ==> #[trigger] age_expired(
                recs,
                cutoff,
                n,
            )[a] < #[trigger] age_expired(recs, cutoff, n)[b],
        forall|x: int|
            0 <= x < n && expires_by_age(recs[x], cutoff) ==> #[trigger] age_expired(
                recs,
                cutoff,
                n,
            ).contains(x),
        age_expired(recs, cutoff, n).len() + candidates(recs, cutoff, n).len() == n,
    decreases n,
{
    if n > 0 {
        lemma_age_expired(recs, cutoff, n - 1);
        let prev = age_expired(recs, cutoff, n - 1);
        if expires_by_age(recs[n - 1], cutoff) {
            let cur = prev.push(n - 1);
            assert forall|a: int| 0 <= a < cur.len() implies 0 <= #[trigger] cur[a] < n
                && expires_by_age(recs[cur[a]], cutoff) by {
                if a < prev.len() {
                    assert(cur[a] == prev[a]);
                }
            }
            assert forall|x: int| 0 <= x < n && expires_by_age(recs[x], cutoff) implies cur.contains(
                x,
            ) by {
                if x < n - 1 {
                    assert(prev.contains(x));
                    let i = choose|i: int| 0 <= i < prev.len() && prev[i] == x;
                    assert(cur[i] == x);
                } else {
                    assert(cur[prev.len() as int] == x);
                }
            }
        }
    }
}

/// After a cleanup no record created before the age cutoff remains, and at
/// most `max_items` records remain: the records removed by age are exactly
/// those created before the cutoff, and the two lists name distinct records
/// whose number leaves at most `max_items` of them.
pub proof fn law_cleanup_keeps_the_age_and_count_limits(
    records: Seq<ClipboardRecord>,
    now: i64,
    cleanup_after_days: Option<u64>,
    max_items: Option<usize>,
    by_age: Seq<int>,
    by_count: Seq<int>,
)
    requires
        is_cleanup_plan(records, now, cleanup_after_days, max_items, by_age, by_count),
    ensures
        match cleanup_after_days {
            Some(d) => forall|x: int|
                0 <= x < records.len() && records[x].created_at < now - d * 86400
                    ==> #[trigger] by_age.contains(x),
            None => true,
        },
        forall|a: int| 0 <= a < by_age.len() ==> 0 <= #[trigger] by_age[a] < records.len(),
        forall|a: int| 0 <= a < by_count.len() ==> 0 <= #[trigger] by_count[a] < records.len(),
        forall|a: int, b: int| 0 <= a < b < by_age.len() ==> #[trigger] by_age[a] != #[trigger] by_age[b],
        forall|a: int, b: int|
            0 <= a < b < by_count.len() ==> #[trigger] by_count[a] != #[trigger] by_count[b],
        forall|a: int, b: int|
            0 <= a < by_age.len() && 0 <= b < by_count.len() ==> #[trigger] by_age[a]
                != #[trigger] by_count[b],
        forall|m: usize|
            max_items == Some(m) ==> records.len() - by_age.len() - by_count.len() <= m,
{
    let cutoff = age_cutoff(now, cleanup_after_days);
    let n = records.len() as int;
    lemma_age_expired(records, cutoff, n);
    lemma_candidates_step(records, cutoff, n);
    let cand = candidates(records, cutoff, n);
    if let Some(d) = cleanup_after_days {
        assert forall|x: int|
            0 <= x < records.len() && records[x].created_at < now - d * 86400 implies #[trigger] by_age.contains(x) by {
            assert(expires_by_age(records[x], cutoff));
        }
    }
    assert forall|a: int| 0 <= a < by_count.len() implies 0 <= #[trigger] by_count[a] < records.len()
        && count_candidate(records[by_count[a]], cutoff) by {
        assert(cand.contains(by_count[a]));
        let i = choose|i: int| 0 <= i < cand.len() && cand[i] == by_count[a];
        assert(count_candidate(records[cand[i]], cutoff));
    }
    assert forall|a: int, b: int|
        0 <= a < b < by_count.len() implies #[trigger] by_count[a] != #[trigger] by_count[b] by {
        assert(older(records, by_count[a], by_count[b]));
    }
    assert forall|a: int, b: int|
        0 <= a < by_age.len() && 0 <= b < by_count.len() implies #[trigger] by_age[a]
        != #[trigger] by_count[b] by {
        assert(expires_by_age(records[by_age[a]], cutoff));
        assert(count_candidate(records[by_count[b]], cutoff));
    }
}

} // verus!
