//! Stable sorting of rows by a key of two numbers and a name.
use vstd::prelude::*;
use crate::text::{seq_less, vec_less, lemma_seq_less_irreflexive, lemma_seq_less_transitive, lemma_seq_less_total, lemma_seq_less_asymmetric};

verus! {

/// A sort key: compared by `rank`, then `secondary`, then `name` by code point.
pub struct SortKey {
    pub rank: u64,
    pub secondary: u64,
    pub name: Vec<char>,
}

pub type KeyView = (u64, u64, Seq<char>);

pub open spec fn key_view(k: SortKey) -> KeyView {
    (k.rank, k.secondary, k.name@)
}

pub open spec fn key_views(ks: Seq<SortKey>) -> Seq<KeyView> {
    ks.map_values(|k: SortKey| key_view(k))
}

/// The order of sort keys: lexicographic on the three parts.
pub open spec fn key_lt(a: KeyView, b: KeyView) -> bool {
    ||| a.0 < b.0
    ||| a.0 == b.0 && a.1 < b.1
    ||| a.0 == b.0 && a.1 == b.1 && seq_less(a.2, b.2)
}

pub proof fn lemma_key_lt_irreflexive(a: KeyView)
    ensures
        !key_lt(a, a),
{
    lemma_seq_less_irreflexive(a.2);
}

pub proof fn lemma_key_lt_asymmetric(a: KeyView, b: KeyView)
    ensures
        !(key_lt(a, b) && key_lt(b, a)),
{
    lemma_seq_less_asymmetric(a.2, b.2);
}

pub proof fn lemma_key_lt_transitive(a: KeyView, b: KeyView, c: KeyView)
    requires
        key_lt(a, b),
        key_lt(b, c),
    ensures
        key_lt(a, c),
{
    if a.0 == b.0 && b.0 == c.0 && a.1 == b.1 && b.1 == c.1 {
        lemma_seq_less_transitive(a.2, b.2, c.2);
    }
}

pub proof fn lemma_key_lt_total(a: KeyView, b: KeyView)
    ensures
        a == b || key_lt(a, b) || key_lt(b, a),
{
    lemma_seq_less_total(a.2, b.2);
}

pub fn key_less(a: &SortKey, b: &SortKey) -> (r: bool)
    ensures
        r == key_lt(key_view(*a), key_view(*b)),
{
    if a.rank != b.rank {
        a.rank < b.rank
    } else if a.secondary != b.secondary {
        a.secondary < b.secondary
    } else {
        vec_less(&a.name, &b.name)
    }
}

/// Inserts position `j` into `ix`, after every position whose key is not
/// greater than that of `j`: stable insertion.
pub open spec fn insert_stable(ix: Seq<int>, j: int, ks: Seq<KeyView>) -> Seq<int>
    decreases ix.len(),
{
    if ix.len() == 0 {
        seq![j]
    } else if key_lt(ks[j], ks[ix.last()]) {
        insert_stable(ix.drop_last(), j, ks).push(ix.last())
    } else {
        ix.push(j)
    }
}

/// The positions `0..n` of `ks`, stably sorted by key.
pub open spec fn sort_prefix(ks: Seq<KeyView>, n: nat) -> Seq<int>
    decreases n,
{
    if n == 0 {
        Seq::empty()
    } else {
        insert_stable(sort_prefix(ks, (n - 1) as nat), n - 1, ks)
    }
}

/// The positions of `ks`, stably sorted by key.
pub open spec fn stable_order(ks: Seq<KeyView>) -> Seq<int> {
    sort_prefix(ks, ks.len())
}

/// `s` lists positions whose keys never go down.
pub open spec fn sorted_by(ks: Seq<KeyView>, s: Seq<int>) -> bool {
    forall|p: int, q: int|
        #![trigger s[p], s[q]]
        0 <= p < q < s.len() ==> !key_lt(ks[s[q]], ks[s[p]])
}

/// Among positions of equal keys, `s` keeps their original order.
pub open spec fn stable_by(ks: Seq<KeyView>, s: Seq<int>) -> bool {
    forall|p: int, q: int|
        #![trigger s[p], s[q]]
        0 <= p < q < s.len() && ks[s[p]] == ks[s[q]] ==> s[p] < s[q]
}

/// `s` holds each of the positions `0..n` exactly once.
pub open spec fn is_arrangement(s: Seq<int>, n: nat) -> bool {
    &&& s.len() == n
    &&& forall|p: int| 0 <= p < s.len() ==> 0 <= #[trigger] s[p] < n
    &&& forall|p: int, q: int| #![trigger s[p], s[q]] 0 <= p < q < s.len() ==> s[p] != s[q]
    &&& forall|i: int| 0 <= i < n ==> #[trigger] s.contains(i)
}

/// Keys that are not below one another, in a chain, are not below either.
pub proof fn lemma_key_le_transitive(a: KeyView, b: KeyView, c: KeyView)
    requires
        !key_lt(b, a),
        !key_lt(c, b),
    ensures
        !key_lt(c, a),
{
    lemma_key_lt_total(a, b);
    lemma_key_lt_total(b, c);
    if key_lt(c, a) {
        if a == b {
            lemma_key_lt_asymmetric(c, b);
        } else if b == c {
            lemma_key_lt_asymmetric(a, b);
        } else {
            lemma_key_lt_transitive(a, b, c);
            lemma_key_lt_asymmetric(a, c);
        }
    }
}

/// Stable insertion puts `j` after the last entry whose key is not above
/// that of `j`; every entry behind it has a key above.
pub proof fn lemma_insert_split(ix: Seq<int>, j: int, ks: Seq<KeyView>) -> (m: int)
    ensures
        0 <= m <= ix.len(),
        insert_stable(ix, j, ks) == ix.take(m) + seq![j] + ix.skip(m),
        forall|p: int| m <= p < ix.len() ==> key_lt(ks[j], ks[#[trigger] ix[p]]),
        m > 0 ==> !key_lt(ks[j], ks[ix[m - 1]]),
    decreases ix.len(),
{
    if ix.len() == 0 {
        assert(seq![j] =~= ix.take(0) + seq![j] + ix.skip(0));
        0
    } else if key_lt(ks[j], ks[ix.last()]) {
        let d = ix.drop_last();
        let m = lemma_insert_split(d, j, ks);
        assert(d.take(m) + seq![j] + d.skip(m) + seq![ix.last()] =~= ix.take(m) + seq![j] + ix.skip(m));
        assert forall|p: int| m <= p < ix.len() implies key_lt(ks[j], ks[#[trigger] ix[p]]) by {
            if p < d.len() {
                assert(ix[p] == d[p]);
            }
        }
        if m > 0 {
            assert(ix[m - 1] == d[m - 1]);
        }
        m
    } else {
        let m = ix.len() as int;
        assert(ix.push(j) =~= ix.take(m) + seq![j] + ix.skip(m));
        m
    }
}

proof fn lemma_insert_keeps(ix: Seq<int>, j: int, ks: Seq<KeyView>, n: nat)
    requires
        n == ix.len(),
        0 <= j < ks.len(),
        j == n,
        is_arrangement(ix, n),
        sorted_by(ks, ix),
        stable_by(ks, ix),
    ensures
        is_arrangement(insert_stable(ix, j, ks), n + 1),
        sorted_by(ks, insert_stable(ix, j, ks)),
        stable_by(ks, insert_stable(ix, j, ks)),
{
    let m = lemma_insert_split(ix, j, ks);
    let r = insert_stable(ix, j, ks);
    assert(r.len() == n + 1);
    assert forall|p: int| 0 <= p < r.len() implies (p < m ==> r[p] == ix[p]) && (p == m ==> r[p] == j)
        && (p > m ==> r[p] == ix[p - 1]) by {}
    assert forall|p: int| 0 <= p < r.len() implies 0 <= #[trigger] r[p] < n + 1 by {
        if p < m {
            assert(r[p] == ix[p]);
        } else if p > m {
            assert(r[p] == ix[p - 1]);
        }
    }
    assert forall|p: int, q: int| #![trigger r[p], r[q]] 0 <= p < q < r.len() implies r[p] != r[q] by {
        if p < m && q < m {
            assert(ix[p] != ix[q]);
        } else if p < m && q > m {
            assert(ix[p] != ix[q - 1]);
        } else if p > m && q > m {
            assert(ix[p - 1] != ix[q - 1]);
        } else if p < m && q == m {
            assert(0 <= ix[p] < n);
        } else if p == m {
            assert(0 <= ix[q - 1] < n);
        }
    }
    assert forall|i: int| 0 <= i < n + 1 implies #[trigger] r.contains(i) by {
        if i == n {
            assert(r[m] == j);
        } else {
            assert(ix.contains(i));
            let p = choose|p: int| 0 <= p < ix.len() && ix[p] == i;
            if p < m {
                assert(r[p] == i);
            } else {
                assert(r[p + 1] == i);
            }
        }
    }
    assert forall|p: int, q: int| #![trigger r[p], r[q]] 0 <= p < q < r.len() implies !key_lt(
        ks[r[q]],
        ks[r[p]],
    ) && (ks[r[p]] == ks[r[q]] ==> r[p] < r[q]) by {
        if q < m {
            assert(r[p] == ix[p] && r[q] == ix[q]);
        } else if p > m {
            assert(r[p] == ix[p - 1] && r[q] == ix[q - 1]);
        } else if p < m && q > m {
            assert(r[p] == ix[p] && r[q] == ix[q - 1]);
        } else if q == m {
            assert(r[p] == ix[p]);
            assert(!key_lt(ks[j], ks[ix[m - 1]]));
            if p < m - 1 {
                assert(!key_lt(ks[ix[m - 1]], ks[ix[p]]));
                lemma_key_le_transitive(ks[ix[p]], ks[ix[m - 1]], ks[j]);
            }
            assert(0 <= ix[p] < n);
        } else {
            assert(p == m);
            assert(r[q] == ix[q - 1]);
            assert(key_lt(ks[j], ks[ix[q - 1]]));
            lemma_key_lt_asymmetric(ks[j], ks[ix[q - 1]]);
            lemma_key_lt_irreflexive(ks[j]);
        }
    }
}

/// Stable insertion sort gives an arrangement of the positions whose keys
/// never go down, and keeps the order of positions with equal keys.
pub proof fn lemma_sort_prefix(ks: Seq<KeyView>, n: nat)
    requires
        n <= ks.len(),
    ensures
        is_arrangement(sort_prefix(ks, n), n),
        sorted_by(ks, sort_prefix(ks, n)),
        stable_by(ks, sort_prefix(ks, n)),
    decreases n,
{
    if n == 0 {
        assert(sort_prefix(ks, 0) =~= Seq::<int>::empty());
    } else {
        lemma_sort_prefix(ks, (n - 1) as nat);
        lemma_insert_keeps(sort_prefix(ks, (n - 1) as nat), n - 1, ks, (n - 1) as nat);
    }
}

/// The stable order of a list of keys arranges all its positions, by key,
/// keeping the order of equal keys.
pub proof fn lemma_stable_order(ks: Seq<KeyView>)
    ensures
        is_arrangement(stable_order(ks), ks.len()),
        sorted_by(ks, stable_order(ks)),
        stable_by(ks, stable_order(ks)),
{
    lemma_sort_prefix(ks, ks.len());
}

pub open spec fn usize_seq_view(v: Seq<usize>) -> Seq<int> {
    v.map_values(|x: usize| x as int)
}

/// The positions of `keys`, stably sorted by key.
pub fn sort_positions(keys: &Vec<SortKey>) -> (r: Vec<usize>)
    ensures
        usize_seq_view(r@) == stable_order(key_views(keys@)),
        r@.len() == keys@.len(),
        forall|k: int| 0 <= k < r@.len() ==> r@[k] < keys@.len(),
{
    let ghost ks = key_views(keys@);
    let mut ix: Vec<usize> = Vec::new();
    let mut j: usize = 0;
    assert(usize_seq_view(ix@) =~= sort_prefix(ks, 0));
    while j < keys.len()
        invariant
            0 <= j <= keys@.len(),
            ks == key_views(keys@),
            usize_seq_view(ix@) == sort_prefix(ks, j as nat),
            ix@.len() == j,
            forall|k: int| 0 <= k < ix@.len() ==> ix@[k] < j,
        decreases keys@.len() - j,
    {
        let ghost old_ix = usize_seq_view(ix@);
        ix.push(j);
        let mut p: usize = ix.len() - 1;
        assert(usize_seq_view(ix@) =~= old_ix.take(p as int) + seq![j as int] + old_ix.skip(
            p as int,
        ));
        assert(old_ix.take(p as int) =~= old_ix);
        assert(old_ix.skip(p as int) =~= Seq::<int>::empty());
        assert(insert_stable(old_ix, j as int, ks) =~= insert_stable(old_ix.take(p as int), j as int, ks) + old_ix.skip(p as int));
        while p > 0 && key_less(&keys[j], &keys[ix[p - 1]])
            invariant
                0 <= p <= j,
                j < keys@.len(),
                ks == key_views(keys@),
                ix@.len() == j + 1,
                old_ix.len() == j,
                usize_seq_view(ix@) == old_ix.take(p as int) + seq![j as int] + old_ix.skip(
                    p as int,
                ),
                insert_stable(old_ix, j as int, ks) == insert_stable(
                    old_ix.take(p as int),
                    j as int,
                    ks,
                ) + old_ix.skip(p as int),
                forall|k: int| 0 <= k < ix@.len() ==> ix@[k] <= j,
            decreases p,
        {
            let ghost a = old_ix.take(p as int);
            let ghost before = usize_seq_view(ix@);
            assert(before[p as int] == j as int);
            assert(before[p as int] == ix@[p as int] as int);
            assert(usize_seq_view(ix@)[p - 1] == a.last());
            assert(a.drop_last() =~= old_ix.take(p - 1));
            assert(seq![a.last()] + old_ix.skip(p as int) =~= old_ix.skip(p - 1));
            assert(insert_stable(a, j as int, ks) == insert_stable(a.drop_last(), j as int, ks).push(
                a.last(),
            ));
            assert(insert_stable(a.drop_last(), j as int, ks).push(a.last()) + old_ix.skip(
                p as int,
            ) =~= insert_stable(a.drop_last(), j as int, ks) + old_ix.skip(p - 1));
            let prev = ix[p - 1];
            assert(before[p - 1] == prev as int);
            ix.set(p, prev);
            ix.set(p - 1, j);
            p -= 1;
            let ghost expect = old_ix.take(p as int) + seq![j as int] + old_ix.skip(p as int);
            assert forall|k: int| 0 <= k < expect.len() implies usize_seq_view(ix@)[k] == expect[k] by {
                if k < p {
                    assert(usize_seq_view(ix@)[k] == before[k]);
                } else if k > p + 1 {
                    assert(usize_seq_view(ix@)[k] == before[k]);
                }
            }
            assert(usize_seq_view(ix@) =~= expect);
        }
        proof {
            let a = old_ix.take(p as int);
            if p > 0 {
                assert(usize_seq_view(ix@)[p - 1] == a.last());
                assert(!key_lt(ks[j as int], ks[a.last()]));
            } else {
                assert(a =~= Seq::<int>::empty());
            }
            assert(insert_stable(a, j as int, ks) =~= a.push(j as int));
            assert(a.push(j as int) + old_ix.skip(p as int) =~= a + seq![j as int] + old_ix.skip(
                p as int,
            ));
        }
        j += 1;
        assert forall|k: int| 0 <= k < ix@.len() implies ix@[k] < j by {}
    }
    ix
}

/// Index `k` holds the first smallest key of `ks`.
pub open spec fn is_first_min(ks: Seq<KeyView>, k: int) -> bool {
    &&& 0 <= k < ks.len()
    &&& forall|j: int| 0 <= j < k ==> key_lt(ks[k], #[trigger] ks[j])
    &&& forall|j: int| k < j < ks.len() ==> !key_lt(#[trigger] ks[j], ks[k])
}

/// The position of the first smallest key, as `Iterator::min_by_key` picks it.
pub fn first_min(keys: &Vec<SortKey>) -> (r: usize)
    requires
        keys@.len() > 0,
    ensures
        is_first_min(key_views(keys@), r as int),
{
    let ghost ks = key_views(keys@);
    let mut best: usize = 0;
    let mut i: usize = 1;
    while i < keys.len()
        invariant
            1 <= i <= keys@.len(),
            ks == key_views(keys@),
            0 <= best < i,
            forall|j: int| 0 <= j < best ==> key_lt(ks[best as int], #[trigger] ks[j]),
            forall|j: int| best < j < i ==> !key_lt(#[trigger] ks[j], ks[best as int]),
        decreases keys@.len() - i,
    {
        if key_less(&keys[i], &keys[best]) {
            proof {
                assert forall|j: int| 0 <= j < i implies key_lt(ks[i as int], #[trigger] ks[j]) by {
                    if j < best {
                        lemma_key_lt_transitive(ks[i as int], ks[best as int], ks[j]);
                    } else if j > best {
                        lemma_key_lt_total(ks[j], ks[best as int]);
                        if ks[j] == ks[best as int] {
                        } else {
                            lemma_key_lt_transitive(ks[i as int], ks[best as int], ks[j]);
                        }
                    }
                }
            }
            best = i;
        }
        i += 1;
    }
    best
}

} // verus!
