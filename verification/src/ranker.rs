//! Picking the best guesses: the indices of the largest scores.

use vstd::prelude::*;

verus! {

/// Whether the score at index `a` is ranked before the score at index `b`:
/// the larger score first, and of two equal scores the one that came first.
pub open spec fn ranks_before(keys: Seq<u32>, a: int, b: int) -> bool {
    keys[a] > keys[b] || (keys[a] == keys[b] && a < b)
}

/// Whether `r` lists the first `k` indices of `keys` in ranking order (all
/// of them where `keys` has no more than `k`): its entries are indices in
/// ranking order, and each of them is ranked before every index that it
/// leaves out.
pub open spec fn is_top_k(keys: Seq<u32>, k: int, r: Seq<usize>) -> bool {
    &&& r.len() == if k < keys.len() {
        k
    } else {
        keys.len() as int
    }
    &&& forall|p: int| 0 <= p < r.len() ==> #[trigger] r[p] < keys.len()
    &&& forall|p: int, q: int|
        0 <= p < q < r.len() ==> ranks_before(keys, #[trigger] r[p] as int, #[trigger] r[q] as int)
    &&& forall|p: int, m: int|
        0 <= p < r.len() && 0 <= m < keys.len() && !r.contains(m as usize) ==> #[trigger] ranks_before(
            keys,
            r[p] as int,
            m,
        )
}

/// The indices of the `k` largest of `keys`, the largest first; of equal
/// keys the one with the lower index comes first. Where there are fewer
/// than `k` keys, all indices are returned.
///
/// A buffer of at most `k` indices is kept in ranking order, and each key
/// in turn is inserted at its place.
pub fn top_k_indices(keys: &[u32], k: usize) -> (res: Vec<usize>)
    ensures
        is_top_k(keys@, k as int, res@),
{
    let mut idx: Vec<usize> = Vec::new();
    let mut i: usize = 0;
    while i < keys.len()
        invariant
            i <= keys@.len(),
            is_top_k(keys@.take(i as int), k as int, idx@),
        decreases keys@.len() - i,
    {
        let ghost seen = keys@.take(i as int);
        let ghost next = keys@.take(i + 1);
        let ghost old_idx = idx@;
        let key = keys[i];
        let mut p: usize = idx.len();
        while p > 0 && keys[idx[p - 1]] < key
            invariant
                p <= idx@.len(),
                i < keys@.len(),
                key == keys@[i as int],
                forall|q: int| 0 <= q < idx@.len() ==> #[trigger] idx@[q] < i,
                forall|q: int| p <= q < idx@.len() ==> keys@[#[trigger] idx@[q] as int] < key,
            decreases p,
        {
            p -= 1;
        }
        proof {
            // entries before the place found hold keys that are no smaller
            assert forall|q: int| 0 <= q < p implies keys@[#[trigger] idx@[q] as int] >= key by {
                if q < p - 1 {
                    assert(ranks_before(seen, idx@[q] as int, idx@[p - 1] as int));
                }
            }
        }
        if p < k {
            if idx.len() == k {
                idx.pop();
            }
            idx.insert(p, i);
            proof {
                lemma_insert_keeps_top(keys@, i as int, k as int, old_idx, p as int, idx@);
            }
        } else {
            proof {
                lemma_skip_keeps_top(keys@, i as int, k as int, old_idx);
            }
        }
        i += 1;
    }
    proof {
        assert(keys@.take(i as int) =~= keys@);
    }
    idx
}

/// A key that is no larger than any of `k` kept keys leaves the kept
/// indices as they are.
proof fn lemma_skip_keeps_top(keys: Seq<u32>, i: int, k: int, r: Seq<usize>)
    requires
        0 <= i < keys.len(),
        is_top_k(keys.take(i), k, r),
        r.len() >= k,
        forall|q: int| 0 <= q < r.len() ==> keys[#[trigger] r[q] as int] >= keys[i],
    ensures
        is_top_k(keys.take(i + 1), k, r),
{
    let seen = keys.take(i);
    let next = keys.take(i + 1);
    assert forall|p: int, q: int| 0 <= p < q < r.len() implies ranks_before(
        next,
        #[trigger] r[p] as int,
        #[trigger] r[q] as int,
    ) by {
        assert(ranks_before(seen, r[p] as int, r[q] as int));
    }
    assert forall|p: int, m: int|
        0 <= p < r.len() && 0 <= m < next.len() && !r.contains(
            m as usize,
        ) implies #[trigger] ranks_before(next, r[p] as int, m) by {
        if m < i {
            assert(ranks_before(seen, r[p] as int, m));
        }
    }
}

/// A key that is larger than the kept keys from place `p` on, and no
/// larger than those before it, takes place `p`; the last kept index
/// leaves if there were `k` of them already.
proof fn lemma_insert_keeps_top(
    keys: Seq<u32>,
    i: int,
    k: int,
    r: Seq<usize>,
    p: int,
    after: Seq<usize>,
)
    requires
        0 <= i < keys.len(),
        i <= usize::MAX,
        is_top_k(keys.take(i), k, r),
        0 <= p <= r.len(),
        p < k,
        forall|q: int| 0 <= q < p ==> keys[#[trigger] r[q] as int] >= keys[i],
        forall|q: int| p <= q < r.len() ==> keys[#[trigger] r[q] as int] < keys[i],
        after == if r.len() == k {
            r.drop_last().insert(p, i as usize)
        } else {
            r.insert(p, i as usize)
        },
    ensures
        is_top_k(keys.take(i + 1), k, after),
{
    let seen = keys.take(i);
    let next = keys.take(i + 1);
    let kept = if r.len() == k {
        r.drop_last()
    } else {
        r
    };
    assert(after == kept.insert(p, i as usize));
    // where each entry of `after` comes from
    assert forall|q: int| 0 <= q < after.len() implies #[trigger] after[q] == if q < p {
        r[q]
    } else if q == p {
        i as usize
    } else {
        r[q - 1]
    } by {}
    assert forall|q: int| 0 <= q < after.len() implies #[trigger] after[q] < next.len() by {}
    assert forall|a: int, b: int| 0 <= a < b < after.len() implies ranks_before(
        next,
        #[trigger] after[a] as int,
        #[trigger] after[b] as int,
    ) by {
        if b < p {
            assert(ranks_before(seen, r[a] as int, r[b] as int));
        } else if b == p {
            assert(keys[r[a] as int] >= keys[i]);
        } else if a < p {
            assert(ranks_before(seen, r[a] as int, r[b - 1] as int));
        } else if a == p {
            assert(keys[r[b - 1] as int] < keys[i]);
        } else {
            assert(ranks_before(seen, r[a - 1] as int, r[b - 1] as int));
        }
    }
    assert forall|a: int, m: int|
        0 <= a < after.len() && 0 <= m < next.len() && !after.contains(
            m as usize,
        ) implies #[trigger] ranks_before(next, after[a] as int, m) by {
        assert(after[p] == i as usize);
        assert(m != i);
        if r.contains(m as usize) {
            // only the last kept index can have left
            let q = choose|q: int| 0 <= q < r.len() && r[q] == m as usize;
            if q < p {
                assert(after[q] == m as usize);
            } else if q < kept.len() {
                assert(after[q + 1] == m as usize);
            }
            assert(r.len() == k && q == k - 1);
            if a < p {
                assert(ranks_before(seen, r[a] as int, r[q] as int));
            } else if a == p {
                assert(keys[r[q] as int] < keys[i]);
            } else {
                assert(ranks_before(seen, r[a - 1] as int, r[q] as int));
            }
        } else {
            // an index that was left out before: the list was full
            assert(r.len() > 0) by {
                if r.len() == 0 {
                    assert(seen.len() == 0);
                }
            }
            assert(r.len() == k) by {
                if r.len() != k {
                    assert(r.len() == seen.len());
                    lemma_all_indices_present(seen, k, r, m);
                }
            }
            let last = r[k - 1] as int;
            assert(ranks_before(seen, last, m));
            if a < p {
                assert(ranks_before(seen, r[a] as int, m));
            } else if a == p {
                assert(keys[last] < keys[i]);
            } else {
                assert(ranks_before(seen, r[a - 1] as int, m));
            }
        }
    }
}

/// A list that ranks as many indices as there are keys holds every index.
proof fn lemma_all_indices_present(keys: Seq<u32>, k: int, r: Seq<usize>, m: int)
    requires
        is_top_k(keys, k, r),
        r.len() == keys.len(),
        0 <= m < keys.len(),
    ensures
        r.contains(m as usize),
{
    // the entries of `r` are distinct indices below the number of keys
    let s = r.map_values(|x: usize| x as int);
    assert forall|a: int, b: int| 0 <= a < s.len() && 0 <= b < s.len() && a != b implies s[a]
        != s[b] by {
        if a < b {
            assert(ranks_before(keys, r[a] as int, r[b] as int));
        } else {
            assert(ranks_before(keys, r[b] as int, r[a] as int));
        }
    }
    assert(s.no_duplicates());
    s.unique_seq_to_set();
    let all = Set::new(|x: int| 0 <= x < keys.len());
    assert(all =~= vstd::set_lib::set_int_range(0, keys.len() as int));
    vstd::set_lib::lemma_int_range(0, keys.len() as int);
    assert(s.to_set().subset_of(all)) by {
        assert forall|x: int| s.to_set().contains(x) implies all.contains(x) by {
            let q = choose|q: int| 0 <= q < s.len() && s[q] == x;
            assert(r[q] < keys.len());
        }
    }
    vstd::set_lib::lemma_subset_equality(s.to_set(), all);
    assert(s.to_set().contains(m));
    let q = choose|q: int| 0 <= q < s.len() && s[q] == m;
    assert(r[q] == m as usize);
}

/// Two lists of first indices in ranking order of the same keys hold the
/// same index at every place that both have.
pub proof fn lemma_top_k_agree(
    keys: Seq<u32>,
    k1: int,
    r1: Seq<usize>,
    k2: int,
    r2: Seq<usize>,
    p: int,
)
    requires
        is_top_k(keys, k1, r1),
        is_top_k(keys, k2, r2),
        0 <= p < r1.len(),
        p < r2.len(),
    ensures
        r1[p] == r2[p],
    decreases p,
{
    assert forall|q: int| 0 <= q < p implies r1[q] == r2[q] by {
        lemma_top_k_agree(keys, k1, r1, k2, r2, q);
    }
    assert forall|q: int| 0 <= q < p implies ranks_before(
        keys,
        #[trigger] r1[q] as int,
        r1[p] as int,
    ) by {}
    assert forall|q: int| 0 <= q < p implies ranks_before(
        keys,
        #[trigger] r2[q] as int,
        r2[p] as int,
    ) by {}
    let a = r1[p];
    let b = r2[p];
    if a != b {
        lemma_not_later(keys, k2, r2, r1, p, a, b);
        lemma_not_later(keys, k1, r1, r2, p, b, a);
    }
}

/// Where `r` and `other` agree before place `p` and differ there, the index
/// `b` that `r` holds at place `p` is ranked before the index `a` that
/// `other` holds there.
proof fn lemma_not_later(
    keys: Seq<u32>,
    k: int,
    r: Seq<usize>,
    other: Seq<usize>,
    p: int,
    a: usize,
    b: usize,
)
    requires
        is_top_k(keys, k, r),
        0 <= p < r.len(),
        p < other.len(),
        a < keys.len(),
        r[p] == b,
        other[p] == a,
        a != b,
        forall|q: int| 0 <= q < p ==> r[q] == other[q],
        forall|q: int| 0 <= q < p ==> ranks_before(keys, #[trigger] other[q] as int, a as int),
    ensures
        ranks_before(keys, b as int, a as int),
{
    if r.contains(a) {
        let q = choose|q: int| 0 <= q < r.len() && r[q] == a;
        if q < p {
            assert(ranks_before(keys, other[q] as int, a as int));
        } else {
            assert(ranks_before(keys, r[p] as int, r[q] as int));
        }
    } else {
        assert(a as int as usize == a);
        assert(ranks_before(keys, r[p] as int, a as int));
    }
}

/// The indices of the `k` largest keys are determined: no two lists meet
/// `is_top_k` for the same keys and the same `k`.
pub proof fn lemma_top_k_unique(keys: Seq<u32>, k: int, r1: Seq<usize>, r2: Seq<usize>)
    requires
        is_top_k(keys, k, r1),
        is_top_k(keys, k, r2),
    ensures
        r1 == r2,
{
    assert forall|p: int| 0 <= p < r1.len() implies r1[p] == r2[p] by {
        lemma_top_k_agree(keys, k, r1, k, r2, p);
    }
    assert(r1 =~= r2);
}

/// The `k` first indices are what is left of the full ranking, all keys
/// sorted from the largest down with equal keys in their first order, when
/// it is cut after `k` entries.
pub proof fn lemma_top_k_is_sorted_prefix(
    keys: Seq<u32>,
    k: int,
    r: Seq<usize>,
    ranking: Seq<usize>,
)
    requires
        0 <= k,
        is_top_k(keys, k, r),
        is_top_k(keys, keys.len() as int, ranking),
    ensures
        r == ranking.take(r.len() as int),
{
    assert forall|p: int| 0 <= p < r.len() implies r[p] == ranking[p] by {
        lemma_top_k_agree(keys, k, r, keys.len() as int, ranking, p);
    }
    assert(r =~= ranking.take(r.len() as int));
}

/// Ranking is idempotent: among the keys that were picked, in the order in
/// which they were picked, the `k` first are all of them in that order.
pub proof fn lemma_top_k_idempotent(keys: Seq<u32>, k: int, r: Seq<usize>)
    requires
        keys.len() <= usize::MAX,
        is_top_k(keys, k, r),
    ensures
        is_top_k(
            Seq::new(r.len(), |p: int| keys[r[p] as int]),
            k,
            Seq::new(r.len(), |p: int| p as usize),
        ),
{
    let picked = Seq::new(r.len(), |p: int| keys[r[p] as int]);
    let same = Seq::new(r.len(), |p: int| p as usize);
    assert forall|p: int, q: int| 0 <= p < q < same.len() implies ranks_before(
        picked,
        #[trigger] same[p] as int,
        #[trigger] same[q] as int,
    ) by {
        assert(ranks_before(keys, r[p] as int, r[q] as int));
    }
    assert forall|p: int, m: int|
        0 <= p < same.len() && 0 <= m < picked.len() && !same.contains(
            m as usize,
        ) implies #[trigger] ranks_before(picked, same[p] as int, m) by {
        assert(same[m] == m as usize);
    }
}

} // verus!
