//! The part of the entropy of a guess that is counted in whole numbers:
//! which outcomes occur at all.

use vstd::prelude::*;

verus! {

/// The counts that are not zero, in their order.
pub open spec fn nonzero(counts: Seq<usize>) -> Seq<usize> {
    counts.filter(|c: usize| c != 0)
}

/// The counts that are not zero, in their order. An outcome that no word
/// gives adds nothing to the entropy, and its logarithm is not taken.
pub fn nonzero_counts(counts: &[usize]) -> (res: Vec<usize>)
    ensures
        res@ == nonzero(counts@),
{
    let mut kept: Vec<usize> = Vec::new();
    let mut i: usize = 0;
    proof {
        reveal(Seq::filter);
        assert(counts@.take(0) =~= Seq::<usize>::empty());
    }
    while i < counts.len()
        invariant
            i <= counts@.len(),
            kept@ == nonzero(counts@.take(i as int)),
        decreases counts@.len() - i,
    {
        proof {
            reveal(Seq::filter);
            let next = counts@.take(i + 1);
            assert(next.drop_last() =~= counts@.take(i as int));
            assert(next.last() == counts@[i as int]);
        }
        if counts[i] != 0 {
            kept.push(counts[i]);
        }
        i += 1;
    }
    proof {
        assert(counts@.take(i as int) =~= counts@);
    }
    kept
}

/// Where one outcome takes all the words, one count is left: the number
/// of the words.
pub proof fn lemma_single_outcome(counts: Seq<usize>, j: int)
    requires
        0 <= j < counts.len(),
        counts[j] != 0,
        forall|i: int| 0 <= i < counts.len() && i != j ==> counts[i] == 0,
    ensures
        nonzero(counts) == seq![counts[j]],
    decreases counts.len(),
{
    reveal(Seq::filter);
    let rest = counts.drop_last();
    if j == counts.len() - 1 {
        rest.lemma_all_neg_filter_empty(|c: usize| c != 0);
        assert(nonzero(counts) =~= seq![counts[j]]);
    } else {
        lemma_single_outcome(rest, j);
        assert(nonzero(counts) =~= seq![counts[j]]);
    }
}

/// Each count that is not zero is kept as often as it occurs; zero is not
/// kept.
pub proof fn lemma_nonzero_occurrences(counts: Seq<usize>, x: usize)
    ensures
        nonzero(counts).to_multiset().count(x) == if x != 0 {
            counts.to_multiset().count(x)
        } else {
            0
        },
    decreases counts.len(),
{
    reveal(Seq::filter);
    if counts.len() == 0 {
        assert(nonzero(counts) =~= Seq::<usize>::empty());
        assert(counts =~= Seq::<usize>::empty());
        Seq::<usize>::empty().to_multiset_ensures();
        assert(Seq::<usize>::empty().to_multiset().len() == 0);
    } else {
        let rest = counts.drop_last();
        let last = counts.last();
        lemma_nonzero_occurrences(rest, x);
        assert(counts =~= rest.push(last));
        vstd::seq_lib::to_multiset_build(rest, last);
        if last != 0 {
            assert(nonzero(counts) =~= nonzero(rest).push(last));
            vstd::seq_lib::to_multiset_build(nonzero(rest), last);
        } else {
            assert(nonzero(counts) =~= nonzero(rest));
        }
    }
}

/// The order of the outcomes does not matter: counts that are the same up
/// to their order leave the same counts, up to their order.
pub proof fn lemma_nonzero_permutation(a: Seq<usize>, b: Seq<usize>)
    requires
        a.to_multiset() == b.to_multiset(),
    ensures
        nonzero(a).to_multiset() == nonzero(b).to_multiset(),
{
    assert forall|x: usize|
        nonzero(a).to_multiset().count(x) == nonzero(b).to_multiset().count(x) by {
        lemma_nonzero_occurrences(a, x);
        lemma_nonzero_occurrences(b, x);
    }
    assert(nonzero(a).to_multiset() =~= nonzero(b).to_multiset());
}

} // verus!
