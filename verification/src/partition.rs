//! The patterns of a guess split the dictionary: every word is admitted by
//! the pattern of exactly one outcome.

use vstd::prelude::*;
use crate::matcher::{lemma_count_matches_empty, lemma_count_matches_push, match_counts};
use crate::pattern::{digit, lemma_matches_is_admits, Pattern};
use crate::word::Word;

verus! {

/// What the game answers for position `i` when `c` is guessed and `w` is
/// the word looked for: 0 if the letter is at its place, 1 if the word holds
/// it elsewhere, 2 if the word does not hold it.
pub open spec fn feedback_at(c: Seq<u8>, w: Seq<u8>, i: int) -> int {
    if c[i] == w[i] {
        0
    } else if w.contains(c[i]) {
        1
    } else {
        2
    }
}

/// The outcome of guessing `c` when `w` is the word looked for: the number
/// whose digit `i` in base three is what the game answers for position `i`.
pub open spec fn outcome(c: Seq<u8>, w: Seq<u8>) -> int {
    feedback_at(c, w, 0) + 3 * feedback_at(c, w, 1) + 9 * feedback_at(c, w, 2) + 27 * feedback_at(
        c,
        w,
        3,
    ) + 81 * feedback_at(c, w, 4)
}

/// The sum of `counts`.
pub open spec fn total(counts: Seq<nat>) -> nat
    decreases counts.len(),
{
    if counts.len() == 0 {
        0
    } else {
        total(counts.drop_last()) + counts.last()
    }
}

/// Dividing by three again and again gives the quotients by the powers of
/// three.
proof fn lemma_quotients(j: int)
    requires
        0 <= j,
    ensures
        j / 9 == (j / 3) / 3,
        j / 27 == ((j / 3) / 3) / 3,
        j / 81 == (((j / 3) / 3) / 3) / 3,
{
    let q1 = j / 3;
    let q2 = q1 / 3;
    let q3 = q2 / 3;
    let q4 = q3 / 3;
    assert(j / 9 == q2) by {
        assert(j == 9 * q2 + (3 * (q1 % 3) + j % 3));
    }
    assert(j / 27 == q3) by {
        assert(j == 27 * q3 + (9 * (q2 % 3) + 3 * (q1 % 3) + j % 3));
    }
    assert(j / 81 == q4) by {
        assert(j == 81 * q4 + (27 * (q3 % 3) + 9 * (q2 % 3) + 3 * (q1 % 3) + j % 3));
    }
}

/// A number below 243 is the number that its five digits spell.
proof fn lemma_digits(j: int)
    requires
        0 <= j < 243,
    ensures
        forall|i: int| 0 <= i < 5 ==> 0 <= #[trigger] digit(j, i) < 3,
        j == digit(j, 0) + 3 * digit(j, 1) + 9 * digit(j, 2) + 27 * digit(j, 3) + 81 * digit(j, 4),
{
    lemma_quotients(j);
    let q1 = j / 3;
    let q2 = q1 / 3;
    let q3 = q2 / 3;
    let q4 = q3 / 3;
    assert(digit(j, 0) == j % 3);
    assert(digit(j, 1) == q1 % 3);
    assert(digit(j, 2) == q2 % 3);
    assert(digit(j, 3) == q3 % 3);
    assert(digit(j, 4) == q4 % 3);
    assert(q4 < 3);
}

/// The pattern of the outcome `j` admits the word `w` exactly when `j` is
/// the outcome of the guess against `w`.
pub proof fn lemma_feedback_admits(p: Pattern, c: Seq<u8>, j: int, w: Seq<u8>)
    requires
        c.len() == 5,
        w.len() == 5,
        0 <= j < 243,
        p.is_feedback(c, j),
    ensures
        p.admits(w) == (j == outcome(c, w)),
{
    lemma_digits(j);
    let agree = forall|i: int| 0 <= i < 5 ==> digit(j, i) == #[trigger] feedback_at(c, w, i);
    assert forall|i: int| 0 <= i < 5 implies (#[trigger] p.match_word.is_set(i) == (digit(j, i)
        == 0) && (p.match_word.is_set(i) ==> p.match_word.letter_at(i) == Some(c[i]))) by {
        assert(p.match_word@[i] == p.match_word.letter_at(i));
    }
    assert forall|i: int| 0 <= i < 5 implies (#[trigger] p.absent_word.is_set(i) == (digit(j, i)
        == 1) && (p.absent_word.is_set(i) ==> p.absent_word.letter_at(i) == Some(c[i]))) by {
        assert(p.absent_word@[i] == p.absent_word.letter_at(i));
    }
    if p.admits(w) {
        assert forall|i: int| 0 <= i < 5 implies digit(j, i) == #[trigger] feedback_at(c, w, i) by {
            assert(w.to_set().contains(w[i]));
            if digit(j, i) == 0 {
                assert(p.match_word.is_set(i));
            } else if digit(j, i) == 1 {
                assert(p.absent_word.is_set(i));
                assert(0 <= i < 5 && digit(j, i) == 1 && c[i] == c[i]);
                assert(p.present_letter@.contains(c[i]));
                assert(w.to_set().contains(c[i]));
            } else {
                assert(0 <= i < 5 && digit(j, i) == 2 && c[i] == c[i]);
                assert(p.absent_letter@.contains(c[i]));
                assert(!w.to_set().contains(c[i]));
            }
        }
        assert(agree);
    }
    if agree {
        assert forall|l: u8| p.present_letter@.contains(l) implies w.to_set().contains(l) by {
            let i = choose|i: int| 0 <= i < 5 && digit(j, i) == 1 && #[trigger] c[i] == l;
            assert(feedback_at(c, w, i) == 1);
        }
        assert forall|l: u8| !(p.absent_letter@.contains(l) && w.to_set().contains(l)) by {
            if p.absent_letter@.contains(l) {
                let i = choose|i: int| 0 <= i < 5 && digit(j, i) == 2 && #[trigger] c[i] == l;
                assert(feedback_at(c, w, i) == 2);
            }
        }
        assert forall|i: int| 0 <= i < 5 && p.match_word.is_set(i) implies p.match_word.letter_at(
            i,
        ) == Some(w[i]) by {
            assert(feedback_at(c, w, i) == 0);
        }
        assert forall|i: int| 0 <= i < 5 && p.absent_word.is_set(i) implies p.absent_word.letter_at(
            i,
        ) != Some(w[i]) by {
            assert(feedback_at(c, w, i) == 1);
        }
        assert(p.admits(w));
    }
    // the digits spell the outcome, and only the outcome has these digits
    assert(agree == (j == outcome(c, w))) by {
        if agree {
            assert(digit(j, 0) == feedback_at(c, w, 0));
            assert(digit(j, 1) == feedback_at(c, w, 1));
            assert(digit(j, 2) == feedback_at(c, w, 2));
            assert(digit(j, 3) == feedback_at(c, w, 3));
            assert(digit(j, 4) == feedback_at(c, w, 4));
        }
        if j == outcome(c, w) {
            lemma_outcome_digits(c, w);
        }
    }
}

/// The outcome is below 243, and its digits are what the game answers.
pub proof fn lemma_outcome_digits(c: Seq<u8>, w: Seq<u8>)
    ensures
        0 <= outcome(c, w) < 243,
        forall|i: int| 0 <= i < 5 ==> digit(outcome(c, w), i) == #[trigger] feedback_at(c, w, i),
{
    let j = outcome(c, w);
    let d0 = feedback_at(c, w, 0);
    let d1 = feedback_at(c, w, 1);
    let d2 = feedback_at(c, w, 2);
    let d3 = feedback_at(c, w, 3);
    let d4 = feedback_at(c, w, 4);
    lemma_quotients(j);
    let q1 = d1 + 3 * (d2 + 3 * (d3 + 3 * d4));
    let q2 = d2 + 3 * (d3 + 3 * d4);
    let q3 = d3 + 3 * d4;
    assert(j == d0 + 3 * q1);
    assert(j / 3 == q1 && j % 3 == d0);
    assert(q1 / 3 == q2 && q1 % 3 == d1);
    assert(q2 / 3 == q3 && q2 % 3 == d2);
    assert(q3 / 3 == d4 && q3 % 3 == d3);
    assert(d4 % 3 == d4);
    assert(digit(j, 0) == j % 3);
    assert(digit(j, 1) == (j / 3) % 3);
    assert(digit(j, 2) == (j / 9) % 3);
    assert(digit(j, 3) == (j / 27) % 3);
    assert(digit(j, 4) == (j / 81) % 3);
}

/// Counts that are all zero sum to zero.
proof fn lemma_total_zero(counts: Seq<nat>)
    requires
        forall|j: int| 0 <= j < counts.len() ==> counts[j] == 0,
    ensures
        total(counts) == 0,
    decreases counts.len(),
{
    if counts.len() > 0 {
        lemma_total_zero(counts.drop_last());
    }
}

/// Adding one to the count at one index adds one to the sum.
proof fn lemma_total_bump(before: Seq<nat>, after: Seq<nat>, k: int)
    requires
        before.len() == after.len(),
        0 <= k < before.len(),
        forall|j: int|
            0 <= j < before.len() ==> after[j] == before[j] + if j == k {
                1nat
            } else {
                0nat
            },
    ensures
        total(after) == total(before) + 1,
    decreases before.len(),
{
    let n = before.len() - 1;
    if k == n {
        lemma_total_same(before.drop_last(), after.drop_last());
    } else {
        lemma_total_bump(before.drop_last(), after.drop_last(), k);
    }
}

/// Equal counts have equal sums.
proof fn lemma_total_same(a: Seq<nat>, b: Seq<nat>)
    requires
        a.len() == b.len(),
        forall|j: int| 0 <= j < a.len() ==> a[j] == b[j],
    ensures
        total(a) == total(b),
{
    assert(a =~= b);
}

/// Partition totality: where `patterns` are the 243 patterns of the guess
/// `c`, every well-formed word is counted by exactly one of them, so the
/// counts of the patterns sum to the number of words.
pub proof fn lemma_partition_totality(patterns: Seq<Pattern>, c: Seq<u8>, words: Seq<Word>)
    requires
        c.len() == 5,
        patterns.len() == 243,
        forall|j: int| 0 <= j < 243 ==> (#[trigger] patterns[j]).is_feedback(c, j),
        forall|k: int| 0 <= k < words.len() ==> (#[trigger] words[k]).wf(),
    ensures
        total(match_counts(patterns, words)) == words.len(),
    decreases words.len(),
{
    if words.len() == 0 {
        assert forall|j: int| 0 <= j < 243 implies match_counts(patterns, words)[j] == 0 by {
            assert(words =~= Seq::<Word>::empty());
            lemma_count_matches_empty(patterns[j]);
        }
        lemma_total_zero(match_counts(patterns, words));
    } else {
        let rest = words.drop_last();
        let w = words.last();
        assert(words =~= rest.push(w));
        assert forall|k: int| 0 <= k < rest.len() implies (#[trigger] rest[k]).wf() by {
            assert(rest[k] == words[k]);
        }
        lemma_partition_totality(patterns, c, rest);
        lemma_outcome_digits(c, w@);
        let hit = outcome(c, w@);
        let before = match_counts(patterns, rest);
        let after = match_counts(patterns, words);
        assert forall|j: int| 0 <= j < 243 implies after[j] == before[j] + if j == hit {
            1nat
        } else {
            0nat
        } by {
            lemma_count_matches_push(patterns[j], rest, w);
            lemma_matches_is_admits(patterns[j], w);
            lemma_feedback_admits(patterns[j], c, j, w@);
        }
        lemma_total_bump(before, after, hit);
    }
}

} // verus!
