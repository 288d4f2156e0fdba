//! Counting, for each pattern of a guess, the words that it admits.

use vstd::prelude::*;
use crate::pattern::{Pattern, Patterns, PATTERN_COUNT};
use crate::simd_pattern::{
    freq_sub, mask_to_int, unpack, FreqSimd, SimdPattern, SimdPatterns, SIMD_PATTERN_COUNT,
    SIMD_WIDTH,
};
use crate::word::Word;

verus! {

/// The number of `words` that the pattern `p` admits.
pub open spec fn count_matches(p: Pattern, words: Seq<Word>) -> nat {
    words.filter(|w: Word| p.matches(&w)).len()
}

/// For each of `patterns`, the number of `words` that it admits.
pub open spec fn match_counts(patterns: Seq<Pattern>, words: Seq<Word>) -> Seq<nat> {
    Seq::new(patterns.len(), |j: int| count_matches(patterns[j], words))
}

/// Counts as numbers without a bound.
pub open spec fn counts_of(counts: Seq<usize>) -> Seq<nat> {
    counts.map_values(|c: usize| c as nat)
}

/// One more word adds one to the count of a pattern that admits it.
pub proof fn lemma_count_matches_push(p: Pattern, words: Seq<Word>, w: Word)
    ensures
        count_matches(p, words.push(w)) == count_matches(p, words) + if p.matches(&w) {
            1nat
        } else {
            0nat
        },
{
    reveal(Seq::filter);
    assert(words.push(w).drop_last() =~= words);
    assert(words.push(w).last() == w);
}

/// No word, no match.
pub proof fn lemma_count_matches_empty(p: Pattern)
    ensures
        count_matches(p, Seq::<Word>::empty()) == 0,
{
    reveal(Seq::filter);
}

/// The number of `words` that `pattern` admits.
pub fn count_word_matches(pattern: &Pattern, words: &[Word]) -> (res: usize)
    ensures
        res == count_matches(*pattern, words@),
{
    let mut count: usize = 0;
    let mut k: usize = 0;
    proof {
        lemma_count_matches_empty(*pattern);
        assert(words@.take(0) =~= Seq::<Word>::empty());
    }
    while k < words.len()
        invariant
            k <= words@.len(),
            count <= k,
            count == count_matches(*pattern, words@.take(k as int)),
        decreases words@.len() - k,
    {
        proof {
            lemma_count_matches_push(*pattern, words@.take(k as int), words@[k as int]);
            assert(words@.take(k + 1) =~= words@.take(k as int).push(words@[k as int]));
        }
        if pattern.matches_word(&words[k]) {
            count += 1;
        }
        k += 1;
    }
    proof {
        assert(words@.take(k as int) =~= words@);
    }
    count
}

/// For each of the 243 patterns of a guess, the number of `words` that it
/// admits.
pub fn match_patterns(words: &[Word], patterns: &Patterns) -> (res: [usize; 243])
    ensures
        counts_of(res@) == match_counts(patterns@, words@),
{
    let mut matches: [usize; 243] = [0usize;243];
    let mut j: usize = 0;
    while j < PATTERN_COUNT
        invariant
            j <= 243,
            forall|i: int| 0 <= i < j ==> matches@[i] == count_matches(patterns@[i], words@),
        decreases 243 - j,
    {
        let count = count_word_matches(&patterns[j], words);
        matches[j] = count;
        j += 1;
    }
    proof {
        assert(counts_of(matches@) =~= match_counts(patterns@, words@));
    }
    matches
}

/// For each of the four patterns in the lanes of `group`, the number of
/// `words` that it admits.
///
/// Each word takes one pass of lane operations: the lanes that match come
/// out as all ones, which is -1, and are subtracted from the counters.
pub fn count_lane_matches(group: &SimdPattern, words: &[Word]) -> (res: FreqSimd)
    requires
        words@.len() <= i32::MAX,
    ensures
        forall|l: int| 0 <= l < 4 ==> res@[l] == count_matches(group.lane(l), words@),
{
    let mut f: FreqSimd = [0i32;4];
    let mut k: usize = 0;
    proof {
        assert(words@.take(0) =~= Seq::<Word>::empty());
        assert forall|l: int| 0 <= l < 4 implies f@[l] == count_matches(
            group.lane(l),
            words@.take(0),
        ) by {
            lemma_count_matches_empty(group.lane(l));
        }
    }
    while k < words.len()
        invariant
            k <= words@.len() <= i32::MAX,
            forall|l: int|
                0 <= l < 4 ==> 0 <= f@[l] <= k && f@[l] == count_matches(
                    group.lane(l),
                    words@.take(k as int),
                ),
        decreases words@.len() - k,
    {
        let mask = group.matches_word(&words[k]);
        let ghost before = f;
        f = freq_sub(&f, &mask_to_int(&mask));
        proof {
            assert(words@.take(k + 1) =~= words@.take(k as int).push(words@[k as int]));
            assert forall|l: int| 0 <= l < 4 implies 0 <= f@[l] <= k + 1 && f@[l] == count_matches(
                group.lane(l),
                words@.take(k + 1),
            ) by {
                lemma_count_matches_push(group.lane(l), words@.take(k as int), words@[k as int]);
                assert(f@[l] == before@[l] + if mask@[l] {
                    1int
                } else {
                    0int
                });
            }
        }
        k += 1;
    }
    proof {
        assert(words@.take(k as int) =~= words@);
    }
    f
}

/// For each of the 243 patterns of a guess, held four to a group, the
/// number of `words` that it admits: what `match_patterns` gives for the
/// patterns that the groups hold.
pub fn match_patterns_simd(words: &[Word], patterns: &SimdPatterns) -> (res: [usize; 243])
    requires
        words@.len() <= i32::MAX,
    ensures
        counts_of(res@) == match_counts(unpack(patterns@), words@),
{
    let mut matches: [usize; 243] = [0usize;243];
    let mut i: usize = 0;
    while i < SIMD_PATTERN_COUNT
        invariant
            i <= 61,
            words@.len() <= i32::MAX,
            forall|j: int|
                0 <= j < 243 && j < 4 * i ==> matches@[j] == count_matches(
                    unpack(patterns@)[j],
                    words@,
                ),
        decreases 61 - i,
    {
        let f = count_lane_matches(&patterns[i], words);
        let offset: usize = i * SIMD_WIDTH;
        let slice_length: usize = if PATTERN_COUNT - offset < SIMD_WIDTH {
            PATTERN_COUNT - offset
        } else {
            SIMD_WIDTH
        };
        let mut l: usize = 0;
        while l < slice_length
            invariant
                i < 61,
                l <= slice_length <= 4,
                offset == 4 * i,
                offset + slice_length <= 243,
                offset + slice_length == 243 || slice_length == 4,
                forall|m: int|
                    0 <= m < 4 ==> 0 <= f@[m] && f@[m] == count_matches(
                        patterns@[i as int].lane(m),
                        words@,
                    ),
                forall|j: int|
                    0 <= j < offset + l ==> matches@[j] == count_matches(
                        unpack(patterns@)[j],
                        words@,
                    ),
            decreases slice_length - l,
        {
            proof {
                let j = offset + l;
                assert(j / 4 == i && j % 4 == l);
            }
            matches[offset + l] = f[l].unsigned_abs() as usize;
            l += 1;
        }
        i += 1;
    }
    proof {
        assert(counts_of(matches@) =~= match_counts(unpack(patterns@), words@));
    }
    matches
}

} // verus!
