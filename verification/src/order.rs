//! Lexicographic order of text, and stable sorting by a text key.

use vstd::prelude::*;
use vstd::string::*;

verus! {

/// Lexicographic order of character sequences (the order of `str`, since
/// UTF-8 preserves the order of code points).
pub open spec fn lex_lt(a: Seq<char>, b: Seq<char>) -> bool
    decreases a.len(),
{
    if a.len() == 0 {
        b.len() > 0
    } else if b.len() == 0 {
        false
    } else if a[0] != b[0] {
        a[0] < b[0]
    } else {
        lex_lt(a.drop_first(), b.drop_first())
    }
}

/// No sequence precedes itself.
pub proof fn lemma_lex_irreflexive(a: Seq<char>)
    ensures
        !lex_lt(a, a),
    decreases a.len(),
{
    if a.len() > 0 {
        lemma_lex_irreflexive(a.drop_first());
    }
}

/// The order is transitive.
pub proof fn lemma_lex_transitive(a: Seq<char>, b: Seq<char>, c: Seq<char>)
    requires
        lex_lt(a, b),
        lex_lt(b, c),
    ensures
        lex_lt(a, c),
    decreases a.len(),
{
    if a.len() > 0 && b.len() > 0 && c.len() > 0 && a[0] == b[0] && b[0] == c[0] {
        lemma_lex_transitive(a.drop_first(), b.drop_first(), c.drop_first());
    }
}

/// Two distinct sequences are ordered one way or the other.
pub proof fn lemma_lex_total(a: Seq<char>, b: Seq<char>)
    requires
        a != b,
    ensures
        lex_lt(a, b) || lex_lt(b, a),
    decreases a.len(),
{
    if a.len() > 0 && b.len() > 0 && a[0] == b[0] {
        if a.drop_first() == b.drop_first() {
            assert(a =~= seq![a[0]] + a.drop_first());
            assert(b =~= seq![b[0]] + b.drop_first());
        }
        lemma_lex_total(a.drop_first(), b.drop_first());
    } else if a.len() == 0 && b.len() == 0 {
        assert(a =~= b);
    }
}

/// `a` precedes `b` in lexicographic order.
pub fn lex_less(a: &str, b: &str) -> (r: bool)
    ensures
        r == lex_lt(a@, b@),
{
    let na = a.unicode_len();
    let nb = b.unicode_len();
    let mut i: usize = 0;
    assert(a@.subrange(0, na as int) =~= a@);
    assert(b@.subrange(0, nb as int) =~= b@);
    while i < na && i < nb
        invariant
            na == a@.len(),
            nb == b@.len(),
            i <= na,
            i <= nb,
            forall|k: int| 0 <= k < i ==> a@[k] == b@[k],
            lex_lt(a@, b@) == lex_lt(a@.subrange(i as int, na as int), b@.subrange(i as int, nb as int)),
        decreases na - i,
    {
        let ca = a.get_char(i);
        let cb = b.get_char(i);
        let ghost sa = a@.subrange(i as int, na as int);
        let ghost sb = b@.subrange(i as int, nb as int);
        assert(sa[0] == ca && sb[0] == cb);
        if ca != cb {
            return ca < cb;
        }
        assert(sa.drop_first() =~= a@.subrange(i + 1, na as int));
        assert(sb.drop_first() =~= b@.subrange(i + 1, nb as int));
        i = i + 1;
    }
    i < nb && i == na
}


/// The text of each string.
pub open spec fn texts(v: Seq<String>) -> Seq<Seq<char>> {
    v.map_values(|s: String| s@)
}

/// In a stable sort by `keys`, index `a` goes before index `b`: its key is
/// smaller, or the keys are equal and `a` came first.
pub open spec fn key_before(keys: Seq<Seq<char>>, a: int, b: int) -> bool {
    lex_lt(keys[a], keys[b]) || (keys[a] == keys[b] && a < b)
}

/// The index `j` occurs in `order`.
pub open spec fn occurs(order: Seq<usize>, j: int) -> bool {
    exists|i: int| 0 <= i < order.len() && #[trigger] order[i] == j
}

/// `order` lists each index of `keys` exactly once, in the order of a
/// stable sort by key.
pub open spec fn stable_sorted_order(keys: Seq<Seq<char>>, order: Seq<usize>) -> bool {
    &&& order.len() == keys.len()
    &&& forall|i: int| 0 <= i < order.len() ==> #[trigger] order[i] < keys.len()
    &&& forall|j: int| 0 <= j < keys.len() ==> #[trigger] occurs(order, j)
    &&& forall|i: int, j: int|
        0 <= i < j < order.len() ==> key_before(keys, #[trigger] order[i] as int, #[trigger] order[j] as int)
}

proof fn lemma_key_before_asymmetric(keys: Seq<Seq<char>>, a: int, b: int)
    ensures
        !(key_before(keys, a, b) && key_before(keys, b, a)),
{
    lemma_lex_irreflexive(keys[a]);
    lemma_lex_irreflexive(keys[b]);
    if lex_lt(keys[a], keys[b]) && lex_lt(keys[b], keys[a]) {
        lemma_lex_transitive(keys[a], keys[b], keys[a]);
    }
}

proof fn lemma_orders_agree_below(keys: Seq<Seq<char>>, o1: Seq<usize>, o2: Seq<usize>, i: int)
    requires
        stable_sorted_order(keys, o1),
        stable_sorted_order(keys, o2),
        0 <= i <= o1.len(),
    ensures
        forall|j: int| 0 <= j < i ==> o1[j] == o2[j],
    decreases i,
{
    if i > 0 {
        let m = i - 1;
        lemma_orders_agree_below(keys, o1, o2, m);
        let a = o1[m] as int;
        let b = o2[m] as int;
        if a != b {
            assert(occurs(o1, b));
            let j = choose|j: int| 0 <= j < o1.len() && #[trigger] o1[j] == b;
            assert(occurs(o2, a));
            let k = choose|k: int| 0 <= k < o2.len() && #[trigger] o2[k] == a;
            if j < m {
                assert(o2[j] == b);
                assert(key_before(keys, o2[j] as int, o2[m] as int));
                lemma_key_before_asymmetric(keys, b, b);
            } else if k < m {
                assert(o1[k] == a);
                assert(key_before(keys, o1[k] as int, o1[m] as int));
                lemma_key_before_asymmetric(keys, a, a);
            } else {
                assert(j > m && k > m);
                assert(key_before(keys, o1[m] as int, o1[j] as int));
                assert(key_before(keys, o2[m] as int, o2[k] as int));
                lemma_key_before_asymmetric(keys, a, b);
            }
        }
    }
}

/// A stable sort by a key has one outcome: two orders that both list every
/// index once in stable key order are the same order. So the result of a
/// sorted listing is determined by the names and their keys.
pub proof fn lemma_stable_order_unique(keys: Seq<Seq<char>>, o1: Seq<usize>, o2: Seq<usize>)
    requires
        stable_sorted_order(keys, o1),
        stable_sorted_order(keys, o2),
    ensures
        o1 == o2,
{
    lemma_orders_agree_below(keys, o1, o2, o1.len() as int);
    assert(o1 =~= o2);
}

/// The order in which a stable sort by `keys` (lexicographic) puts the
/// indices `0..keys.len()`.
pub fn stable_sort_order(keys: &Vec<String>) -> (order: Vec<usize>)
    ensures
        stable_sorted_order(texts(keys@), order@),
{
    let n = keys.len();
    let ghost ks = texts(keys@);
    let mut order: Vec<usize> = Vec::new();
    let mut k: usize = 0;
    while k < n
        invariant
            n == keys@.len(),
            ks == texts(keys@),
            k <= n,
            order@.len() == k,
            forall|i: int| 0 <= i < k ==> #[trigger] order@[i] < k,
            forall|j: int| 0 <= j < k ==> #[trigger] occurs(order@, j),
            forall|i: int, j: int|
                0 <= i < j < k ==> key_before(ks, #[trigger] order@[i] as int, #[trigger] order@[j] as int),
        decreases n - k,
    {
        let mut p: usize = 0;
        while p < k && !lex_less(keys[k].as_str(), keys[order[p]].as_str())
            invariant
                n == keys@.len(),
                ks == texts(keys@),
                k < n,
                order@.len() == k,
                p <= k,
                forall|i: int| 0 <= i < k ==> #[trigger] order@[i] < k,
                forall|i: int| 0 <= i < p ==> !lex_lt(ks[k as int], ks[#[trigger] order@[i] as int]),
            decreases k - p,
        {
            p = p + 1;
        }
        let ghost old_order = order@;
        assert(p < k ==> lex_lt(ks[k as int], ks[old_order[p as int] as int]));
        order.insert(p, k);
        assert(order@ == old_order.insert(p as int, k));
        proof {
            assert forall|i: int| 0 <= i < k + 1 implies #[trigger] order@[i] < k + 1 by {
                if i < p {
                    assert(order@[i] == old_order[i]);
                } else if i > p {
                    assert(order@[i] == old_order[i - 1]);
                }
            }
            assert forall|j: int| 0 <= j < k + 1 implies #[trigger] occurs(order@, j) by {
                if j == k {
                    assert(order@[p as int] == j);
                } else {
                    assert(occurs(old_order, j));
                    let i0 = choose|i: int| 0 <= i < old_order.len() && #[trigger] old_order[i] == j;
                    if i0 < p {
                        assert(order@[i0] == j);
                    } else {
                        assert(order@[i0 + 1] == j);
                    }
                }
            }
            assert forall|i: int, j: int| 0 <= i < j < k + 1 implies key_before(
                ks,
                #[trigger] order@[i] as int,
                #[trigger] order@[j] as int,
            ) by {
                let a = order@[i] as int;
                let b = order@[j] as int;
                if j < p {
                    assert(old_order[i] == a && old_order[j] == b);
                } else if i > p {
                    assert(old_order[i - 1] == a && old_order[j - 1] == b);
                } else if j == p {
                    // a is an earlier entry whose key is not above the new key
                    assert(old_order[i] == a);
                    assert(!lex_lt(ks[k as int], ks[a]));
                    if ks[a] != ks[k as int] {
                        lemma_lex_total(ks[a], ks[k as int]);
                    }
                } else if i == p && j > p {
                    // the new key is below the key at p, and that one is not above b's
                    let c = old_order[p as int] as int;
                    assert(old_order[j - 1] == b);
                    assert(lex_lt(ks[k as int], ks[c]));
                    if j - 1 > p {
                        assert(key_before(ks, old_order[p as int] as int, old_order[j - 1] as int));
                        if lex_lt(ks[c], ks[b]) {
                            lemma_lex_transitive(ks[k as int], ks[c], ks[b]);
                        }
                    }
                } else {
                    // i < p < j
                    assert(old_order[i] == a && old_order[j - 1] == b);
                    assert(key_before(ks, old_order[i] as int, old_order[j - 1] as int));
                }
            }
        }
        k = k + 1;
    }
    order
}

/// `result` is `items` rearranged by a stable sort on `keys` (the key of
/// `items[i]` being `keys[i]`).
pub open spec fn sorted_by_keys(items: Seq<Seq<char>>, keys: Seq<Seq<char>>, result: Seq<Seq<char>>) -> bool {
    exists|order: Seq<usize>|
        {
            &&& stable_sorted_order(keys, order)
            &&& result.len() == order.len()
            &&& forall|i: int| 0 <= i < result.len() ==> result[i] == items[#[trigger] order[i] as int]
        }
}

/// A stable sort of given items by given keys has a single result.
pub proof fn lemma_sorted_listing_unique(
    items: Seq<Seq<char>>,
    keys: Seq<Seq<char>>,
    r1: Seq<Seq<char>>,
    r2: Seq<Seq<char>>,
)
    requires
        sorted_by_keys(items, keys, r1),
        sorted_by_keys(items, keys, r2),
    ensures
        r1 == r2,
{
    let o1 = choose|order: Seq<usize>|
        {
            &&& stable_sorted_order(keys, order)
            &&& r1.len() == order.len()
            &&& forall|i: int| 0 <= i < r1.len() ==> r1[i] == items[#[trigger] order[i] as int]
        };
    let o2 = choose|order: Seq<usize>|
        {
            &&& stable_sorted_order(keys, order)
            &&& r2.len() == order.len()
            &&& forall|i: int| 0 <= i < r2.len() ==> r2[i] == items[#[trigger] order[i] as int]
        };
    lemma_stable_order_unique(keys, o1, o2);
    assert forall|i: int| 0 <= i < r1.len() implies r1[i] == r2[i] by {
        assert(r1[i] == items[o1[i] as int]);
        assert(r2[i] == items[o2[i] as int]);
    }
    assert(r1 =~= r2);
}

/// Sort `items` stably by the lexicographic order of `keys`.
pub fn sort_by_keys(items: &Vec<String>, keys: &Vec<String>) -> (r: Vec<String>)
    requires
        items@.len() == keys@.len(),
    ensures
        sorted_by_keys(texts(items@), texts(keys@), texts(r@)),
{
    let order = stable_sort_order(keys);
    let mut r: Vec<String> = Vec::new();
    let mut i: usize = 0;
    while i < order.len()
        invariant
            stable_sorted_order(texts(keys@), order@),
            items@.len() == keys@.len(),
            i <= order@.len(),
            r@.len() == i,
            forall|k: int| 0 <= k < i ==> r@[k]@ == items@[#[trigger] order@[k] as int]@,
        decreases order@.len() - i,
    {
        let s = items[order[i]].clone();
        r.push(s);
        i = i + 1;
    }
    assert(texts(r@).len() == order@.len());
    assert forall|k: int| 0 <= k < texts(r@).len() implies texts(r@)[k] == texts(items@)[#[trigger] order@[k] as int] by {}
    r
}
} // verus!
