use vstd::prelude::*;

verus! {

// ---------------------------------------------------------------------------
// Lexicographic order on sort keys
// ---------------------------------------------------------------------------

/// Lexicographic order on sequences of numbers: a proper prefix comes first.
pub open spec fn word_lt(a: Seq<u64>, b: Seq<u64>) -> bool
    decreases a.len(),
{
    if a.len() == 0 {
        b.len() > 0
    } else if b.len() == 0 {
        false
    } else if a[0] < b[0] {
        true
    } else if a[0] > b[0] {
        false
    } else {
        word_lt(a.drop_first(), b.drop_first())
    }
}

/// Lexicographic order on keys made of several words.
pub open spec fn key_lt(a: Seq<Seq<u64>>, b: Seq<Seq<u64>>) -> bool
    decreases a.len(),
{
    if a.len() == 0 {
        b.len() > 0
    } else if b.len() == 0 {
        false
    } else if word_lt(a[0], b[0]) {
        true
    } else if a[0] != b[0] {
        false
    } else {
        key_lt(a.drop_first(), b.drop_first())
    }
}

pub proof fn lemma_word_order(a: Seq<u64>, b: Seq<u64>, c: Seq<u64>)
    ensures
        !word_lt(a, a),
        a != b ==> (word_lt(a, b) || word_lt(b, a)),
        word_lt(a, b) ==> !word_lt(b, a),
        word_lt(a, b) && word_lt(b, c) ==> word_lt(a, c),
    decreases a.len(),
{
    if a.len() == 0 && b.len() == 0 {
        assert(a =~= b);
    }
    if a.len() > 0 && b.len() > 0 && c.len() > 0 {
        lemma_word_order(a.drop_first(), b.drop_first(), c.drop_first());
    }
    if a.len() > 0 && b.len() > 0 {
        lemma_word_order(a.drop_first(), b.drop_first(), b.drop_first());
        if a != b && a[0] == b[0] {
            assert(a.drop_first() != b.drop_first()) by {
                if a.drop_first() == b.drop_first() {
                    assert(a =~= seq![a[0]] + a.drop_first());
                    assert(b =~= seq![b[0]] + b.drop_first());
                }
            }
        }
    }
    if a.len() > 0 {
        lemma_word_order(a.drop_first(), a.drop_first(), a.drop_first());
    }
}

pub proof fn lemma_key_order(a: Seq<Seq<u64>>, b: Seq<Seq<u64>>, c: Seq<Seq<u64>>)
    ensures
        !key_lt(a, a),
        a != b ==> (key_lt(a, b) || key_lt(b, a)),
        key_lt(a, b) ==> !key_lt(b, a),
        key_lt(a, b) && key_lt(b, c) ==> key_lt(a, c),
    decreases a.len(),
{
    if a.len() == 0 && b.len() == 0 {
        assert(a =~= b);
    }
    if a.len() > 0 {
        lemma_word_order(a[0], a[0], a[0]);
        lemma_key_order(a.drop_first(), a.drop_first(), a.drop_first());
    }
    if a.len() > 0 && b.len() > 0 {
        lemma_word_order(a[0], b[0], b[0]);
        lemma_word_order(b[0], a[0], a[0]);
        lemma_key_order(a.drop_first(), b.drop_first(), b.drop_first());
        if a != b && a[0] == b[0] {
            assert(a.drop_first() != b.drop_first()) by {
                if a.drop_first() == b.drop_first() {
                    assert(a =~= seq![a[0]] + a.drop_first());
                    assert(b =~= seq![b[0]] + b.drop_first());
                }
            }
        }
    }
    if a.len() > 0 && b.len() > 0 && c.len() > 0 {
        lemma_word_order(a[0], b[0], c[0]);
        lemma_word_order(b[0], c[0], a[0]);
        lemma_word_order(c[0], a[0], b[0]);
        lemma_word_order(a[0], c[0], b[0]);
        lemma_key_order(a.drop_first(), b.drop_first(), c.drop_first());
    }
}

/// The numbers of a key.
pub open spec fn key_view(k: Vec<Vec<u64>>) -> Seq<Seq<u64>> {
    k@.map_values(|w: Vec<u64>| w@)
}

/// Whether two words hold the same numbers.
pub fn same_word(a: &Vec<u64>, b: &Vec<u64>) -> (r: bool)
    ensures
        r == (a@ == b@),
{
    if a.len() != b.len() {
        return false;
    }
    let mut i: usize = 0;
    while i < a.len()
        invariant
            a@.len() == b@.len(),
            i <= a@.len(),
            forall|k: int| 0 <= k < i ==> a@[k] == b@[k],
        decreases a.len() - i,
    {
        if a[i] != b[i] {
            return false;
        }
        i = i + 1;
    }
    assert(a@ =~= b@);
    true
}

fn word_less(a: &Vec<u64>, b: &Vec<u64>) -> (r: bool)
    ensures
        r == word_lt(a@, b@),
{
    let mut i: usize = 0;
    assert(a@.skip(0) =~= a@);
    assert(b@.skip(0) =~= b@);
    while i < a.len() && i < b.len() && a[i] == b[i]
        invariant
            i <= a.len(),
            i <= b.len(),
            word_lt(a@, b@) == word_lt(a@.skip(i as int), b@.skip(i as int)),
        decreases a.len() - i,
    {
        assert(a@.skip(i as int).drop_first() =~= a@.skip(i + 1));
        assert(b@.skip(i as int).drop_first() =~= b@.skip(i + 1));
        i = i + 1;
    }
    if i == a.len() {
        i < b.len()
    } else if i == b.len() {
        false
    } else {
        assert(a@.skip(i as int)[0] == a@[i as int]);
        assert(b@.skip(i as int)[0] == b@[i as int]);
        a[i] < b[i]
    }
}

fn words_equal(a: &Vec<u64>, b: &Vec<u64>) -> (r: bool)
    ensures
        r == (a@ == b@),
{
    if a.len() != b.len() {
        return false;
    }
    let mut i: usize = 0;
    while i < a.len()
        invariant
            i <= a.len() == b.len(),
            forall|k: int| 0 <= k < i ==> a@[k] == b@[k],
        decreases a.len() - i,
    {
        if a[i] != b[i] {
            return false;
        }
        i = i + 1;
    }
    assert(a@ =~= b@);
    true
}

/// Whether key `a` comes strictly before key `b`.
pub fn key_less(a: &Vec<Vec<u64>>, b: &Vec<Vec<u64>>) -> (r: bool)
    ensures
        r == key_lt(key_view(*a), key_view(*b)),
{
    let ghost ka = key_view(*a);
    let ghost kb = key_view(*b);
    let mut i: usize = 0;
    assert(ka.skip(0) =~= ka);
    assert(kb.skip(0) =~= kb);
    while i < a.len() && i < b.len() && words_equal(&a[i], &b[i])
        invariant
            i <= a.len(),
            i <= b.len(),
            ka == key_view(*a),
            kb == key_view(*b),
            key_lt(ka, kb) == key_lt(ka.skip(i as int), kb.skip(i as int)),
        decreases a.len() - i,
    {
        proof {
            let sa = ka.skip(i as int);
            let sb = kb.skip(i as int);
            assert(sa[0] == a@[i as int]@);
            assert(sb[0] == b@[i as int]@);
            lemma_word_order(sa[0], sa[0], sa[0]);
            assert(sa.drop_first() =~= ka.skip(i + 1));
            assert(sb.drop_first() =~= kb.skip(i + 1));
        }
        i = i + 1;
    }
    if i == a.len() {
        i < b.len()
    } else if i == b.len() {
        false
    } else {
        proof {
            assert(ka.skip(i as int)[0] == a@[i as int]@);
            assert(kb.skip(i as int)[0] == b@[i as int]@);
            lemma_word_order(a@[i as int]@, b@[i as int]@, b@[i as int]@);
        }
        word_less(&a[i], &b[i])
    }
}

// ---------------------------------------------------------------------------
// Stable sorting
// ---------------------------------------------------------------------------

/// Whether the entry at `x` comes before the entry at `y`: by key, and by
/// position where the keys are equal (a stable order).
pub open spec fn entry_lt(keys: Seq<Seq<Seq<u64>>>, x: int, y: int) -> bool {
    key_lt(keys[x], keys[y]) || (keys[x] == keys[y] && x < y)
}

/// Whether `order` lists each position below `n` once, in the stable order
/// of the keys.
pub open spec fn is_sorted_order(keys: Seq<Seq<Seq<u64>>>, order: Seq<int>, n: int) -> bool {
    &&& order.len() == n
    &&& forall|a: int| 0 <= a < n ==> 0 <= #[trigger] order[a] < n
    &&& forall|x: int| 0 <= x < n ==> #[trigger] order.contains(x)
    &&& forall|a: int, b: int| 0 <= a < b < n ==> entry_lt(keys, #[trigger] order[a], #[trigger] order[b])
}

pub open spec fn positions(v: Seq<usize>) -> Seq<int> {
    v.map_values(|p: usize| p as int)
}

pub open spec fn keys_view(keys: Seq<Vec<Vec<u64>>>) -> Seq<Seq<Seq<u64>>> {
    keys.map_values(|k: Vec<Vec<u64>>| key_view(k))
}

/// The positions of `keys` in the stable order of the keys (what a stable
/// sort by these keys does to the entries).
pub fn sorted_order(keys: &Vec<Vec<Vec<u64>>>) -> (order: Vec<usize>)
    ensures
        is_sorted_order(keys_view(keys@), positions(order@), keys@.len() as int),
{
    let ghost ks = keys_view(keys@);
    let mut order: Vec<usize> = Vec::new();
    let mut i: usize = 0;
    while i < keys.len()
        invariant
            i <= keys@.len(),
            ks == keys_view(keys@),
            is_sorted_order(ks, positions(order@), i as int),
            forall|a: int| 0 <= a < order@.len() ==> (order@[a] as int) < i,
        decreases keys.len() - i,
    {
        let mut j: usize = 0;
        while j < order.len() && !key_less(&keys[i], &keys[order[j]])
            invariant
                i < keys@.len(),
                ks == keys_view(keys@),
                j <= order@.len(),
                is_sorted_order(ks, positions(order@), i as int),
                forall|a: int| 0 <= a < order@.len() ==> (order@[a] as int) < i,
                forall|a: int| 0 <= a < j ==> !key_lt(ks[i as int], ks[order@[a] as int]),
            decreases order.len() - j,
        {
            assert(ks[order@[j as int] as int] == key_view(keys@[order@[j as int] as int]));
            j = j + 1;
        }
        proof {
            let old_p = positions(order@);
            if j < order@.len() {
                assert(ks[order@[j as int] as int] == key_view(keys@[order@[j as int] as int]));
                assert(ks[i as int] == key_view(keys@[i as int]));
            }
            assert forall|a: int| 0 <= a < j implies entry_lt(ks, old_p[a], i as int) by {
                assert(0 <= old_p[a] < i);
                lemma_key_order(ks[i as int], ks[old_p[a]], ks[old_p[a]]);
            }
            assert forall|b: int| j <= b < old_p.len() implies entry_lt(ks, i as int, old_p[b]) by {
                if b > j {
                    assert(entry_lt(ks, old_p[j as int], old_p[b]));
                    lemma_key_order(ks[i as int], ks[old_p[j as int]], ks[old_p[b]]);
                }
            }
        }
        let ghost old_order = order@;
        order.insert(j, i);
        proof {
            let p = positions(order@);
            let old_p = positions(old_order);
            assert(order@ =~= old_order.insert(j as int, i));
            assert forall|a: int| 0 <= a < order@.len() implies (order@[a] as int) < i + 1 by {
                if a < j {
                    assert(order@[a] == old_order[a]);
                } else if a > j {
                    assert(order@[a] == old_order[a - 1]);
                }
            }
            assert forall|a: int| 0 <= a < i + 1 implies 0 <= #[trigger] p[a] < i + 1 by {
                if a < j {
                    assert(p[a] == old_p[a]);
                } else if a > j {
                    assert(p[a] == old_p[a - 1]);
                }
            }
            assert forall|x: int| 0 <= x < i + 1 implies #[trigger] p.contains(x) by {
                if x == i {
                    assert(p[j as int] == x);
                } else {
                    assert(old_p.contains(x));
                    let a = choose|a: int| 0 <= a < old_p.len() && old_p[a] == x;
                    if a < j {
                        assert(p[a] == x);
                    } else {
                        assert(p[a + 1] == x);
                    }
                }
            }
            assert forall|a: int, b: int| 0 <= a < b < i + 1 implies entry_lt(
                ks,
                #[trigger] p[a],
                #[trigger] p[b],
            ) by {
                if b < j {
                    assert(p[a] == old_p[a] && p[b] == old_p[b]);
                } else if b == j {
                    assert(p[a] == old_p[a]);
                } else if a < j {
                    assert(p[a] == old_p[a] && p[b] == old_p[b - 1]);
                } else if a == j {
                    assert(p[b] == old_p[b - 1]);
                } else {
                    assert(p[a] == old_p[a - 1] && p[b] == old_p[b - 1]);
                }
            }
        }
        i = i + 1;
    }
    order
}

/// The stable order of a list of keys is unique: any two orders that list
/// every position once, in the stable order of the keys, are the same.
pub proof fn law_stable_order_is_unique(
    keys: Seq<Seq<Seq<u64>>>,
    o1: Seq<int>,
    o2: Seq<int>,
    n: int,
)
    requires
        is_sorted_order(keys, o1, n),
        is_sorted_order(keys, o2, n),
    ensures
        o1 == o2,
{
    assert forall|a: int| 0 <= a < n implies o1[a] == o2[a] by {
        lemma_orders_agree_at(keys, o1, o2, n, a);
    }
    assert(o1 =~= o2);
}

proof fn lemma_orders_agree_at(keys: Seq<Seq<Seq<u64>>>, o1: Seq<int>, o2: Seq<int>, n: int, k: int)
    requires
        is_sorted_order(keys, o1, n),
        is_sorted_order(keys, o2, n),
        0 <= k < n,
    ensures
        o1[k] == o2[k],
    decreases k,
{
    assert forall|a: int| 0 <= a < k implies o1[a] == o2[a] by {
        lemma_orders_agree_at(keys, o1, o2, n, a);
    }
    let x = o1[k];
    let y = o2[k];
    if x != y {
        assert(o1.contains(y));
        let b = choose|b: int| 0 <= b < o1.len() && o1[b] == y;
        assert(o2.contains(x));
        let c = choose|c: int| 0 <= c < o2.len() && o2[c] == x;
        lemma_key_order(keys[x], keys[y], keys[x]);
        lemma_key_order(keys[y], keys[x], keys[y]);
        if b < k {
            assert(o2[b] == y);
            assert(entry_lt(keys, o2[b], o2[k]));
        } else if c < k {
            assert(o1[c] == x);
            assert(entry_lt(keys, o1[c], o1[k]));
        } else {
            assert(entry_lt(keys, o1[k], o1[b]));
            assert(entry_lt(keys, o2[k], o2[c]));
        }
    }
}

// ---------------------------------------------------------------------------
// Stable sorting by one number
// ---------------------------------------------------------------------------

/// Whether `order` lists each position of `words` once, by increasing word,
/// equal words keeping their order (what a stable sort by the words does).
pub open spec fn is_word_order(words: Seq<u64>, order: Seq<int>) -> bool {
    &&& order.len() == words.len()
    &&& forall|a: int| 0 <= a < order.len() ==> 0 <= #[trigger] order[a] < words.len()
    &&& forall|x: int| 0 <= x < words.len() ==> #[trigger] order.contains(x)
    &&& forall|a: int, b: int|
        0 <= a < b < order.len() ==> words[#[trigger] order[a]] < words[#[trigger] order[b]] || (
        words[order[a]] == words[order[b]] && order[a] < order[b])
}

proof fn lemma_one_word_keys(a: u64, b: u64)
    ensures
        key_lt(seq![seq![a]], seq![seq![b]]) == (a < b),
        (seq![seq![a]] == seq![seq![b]]) == (a == b),
{
    reveal_with_fuel(key_lt, 2);
    reveal_with_fuel(word_lt, 2);
    assert(seq![a].drop_first() =~= Seq::<u64>::empty());
    assert(seq![b].drop_first() =~= Seq::<u64>::empty());
    assert(seq![seq![a]].drop_first() =~= Seq::<Seq<u64>>::empty());
    assert(seq![seq![b]].drop_first() =~= Seq::<Seq<u64>>::empty());
    if a == b {
        assert(seq![a] =~= seq![b]);
    } else {
        assert(seq![a][0] != seq![b][0]);
        assert(seq![seq![a]][0][0] != seq![seq![b]][0][0]);
    }
}

/// The positions of `words` in stable order of the words.
pub fn sorted_by_word(words: &Vec<u64>) -> (order: Vec<usize>)
    ensures
        is_word_order(words@, positions(order@)),
{
    let mut keys: Vec<Vec<Vec<u64>>> = Vec::new();
    let mut i: usize = 0;
    while i < words.len()
        invariant
            i <= words@.len(),
            keys@.len() == i,
            forall|a: int| 0 <= a < i ==> key_view(#[trigger] keys@[a]) == seq![seq![words@[a]]],
        decreases words.len() - i,
    {
        let key = vec![vec![words[i]]];
        assert(key@[0]@ =~= seq![words@[i as int]]);
        assert(key_view(key) =~= seq![seq![words@[i as int]]]);
        keys.push(key);
        i = i + 1;
    }
    let order = sorted_order(&keys);
    proof {
        let ks = keys_view(keys@);
        let po = positions(order@);
        assert forall|a: int, b: int| 0 <= a < b < po.len() implies words@[#[trigger] po[a]]
            < words@[#[trigger] po[b]] || (words@[po[a]] == words@[po[b]] && po[a] < po[b]) by {
            assert(entry_lt(ks, po[a], po[b]));
            assert(ks[po[a]] == key_view(keys@[po[a]]));
            assert(ks[po[b]] == key_view(keys@[po[b]]));
            lemma_one_word_keys(words@[po[a]], words@[po[b]]);
        }
    }
    order
}

} // verus!
