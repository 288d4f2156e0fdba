//! Feedback patterns: what one guess can tell about the word looked for.

use vstd::prelude::*;
use vstd::string::*;
use crate::ascii_bit_set::AsciiBitSet;
use crate::fivegram::{any_slot_zero, Fivegram, FIVEGRAM};
use crate::word::{all_lowercase, lemma_word_letters, Word, WordBytes};

verus! {

/// Number of feedback patterns of one guess: three outcomes for each of the
/// five letters.
pub const PATTERN_COUNT: usize = 243;

/// The patterns of one guess, the pattern of the outcome `j` at index `j`.
pub type Patterns = [Pattern; 243];

/// The power `3^i`, for the five positions and the number of patterns.
pub open spec fn pow3(i: int) -> int {
    if i <= 0 {
        1
    } else if i == 1 {
        3
    } else if i == 2 {
        9
    } else if i == 3 {
        27
    } else if i == 4 {
        81
    } else {
        243
    }
}

/// What the outcome `j` says of position `i`, the digit `i` of `j` in base
/// three: 0 for a letter at its place, 1 for a letter that is in the word
/// but elsewhere, 2 for a letter that is not in the word.
pub open spec fn digit(j: int, i: int) -> int {
    (j / pow3(i)) % 3
}

/// The slots of the guess `c` of which the outcome `j` says `d`, up to
/// position `n`.
pub open spec fn slots_with(c: Seq<u8>, j: int, d: int, n: int) -> Seq<Option<u8>> {
    Seq::new(
        5,
        |i: int|
            if i < n && digit(j, i) == d {
                Some(c[i])
            } else {
                None
            },
    )
}

/// The letters of the guess `c` of which the outcome `j` says `d`, up to
/// position `n`.
pub open spec fn letters_with(c: Seq<u8>, j: int, d: int, n: int) -> Set<u8> {
    Set::new(|l: u8| exists|i: int| 0 <= i < n && digit(j, i) == d && #[trigger] c[i] == l)
}

/// Flat form of one feedback: which letters stand where, which letters are
/// in the word but not where they were tried, and which are not in it.
///
/// A letter that the guess holds twice is treated twice, each time on its
/// own: a pattern cannot say how often a letter occurs.
#[derive(Debug, Copy, Clone)]
pub struct Pattern {
    /// Letters at their known positions.
    pub match_word: Fivegram,
    /// Letters that occur somewhere in the word.
    pub present_letter: AsciiBitSet,
    /// Letters at positions where they do not stand.
    pub absent_word: Fivegram,
    /// Letters that occur nowhere in the word.
    pub absent_letter: AsciiBitSet,
}

impl Default for Pattern {
    /// The pattern that constrains nothing.
    fn default() -> (res: Self)
        ensures
            res.match_word == (Fivegram { word: 0, letter_mask: 0 }),
            res.present_letter == (AsciiBitSet { set: 0 }),
            res.absent_word == (Fivegram { word: 0, letter_mask: 0 }),
            res.absent_letter == (AsciiBitSet { set: 0 }),
            res.wf(),
    {
        Pattern {
            match_word: Fivegram::default(),
            present_letter: AsciiBitSet::default(),
            absent_word: Fivegram::default(),
            absent_letter: AsciiBitSet::default(),
        }
    }
}

impl Pattern {
    /// Each of the four parts is well formed.
    pub open spec fn wf(&self) -> bool {
        &&& self.match_word.wf()
        &&& self.present_letter.wf()
        &&& self.absent_word.wf()
        &&& self.absent_letter.wf()
    }

    /// Whether `self` is the pattern of the outcome `j` of the guess `c`:
    /// `match_word` holds the letters at their place, `absent_word` and
    /// `present_letter` those that are elsewhere in the word, and
    /// `absent_letter` those that the word does not hold.
    pub open spec fn is_feedback(&self, c: Seq<u8>, j: int) -> bool {
        &&& self.wf()
        &&& self.match_word@ == slots_with(c, j, 0, 5)
        &&& self.absent_word@ == slots_with(c, j, 1, 5)
        &&& self.present_letter@ == letters_with(c, j, 1, 5)
        &&& self.absent_letter@ == letters_with(c, j, 2, 5)
    }

    /// The 243 patterns of the guess `bytes`, one for each outcome.
    pub fn from_bytes(bytes: &WordBytes) -> (res: Patterns)
        requires
            all_lowercase(bytes@),
        ensures
            forall|j: int| 0 <= j < 243 ==> (#[trigger] res@[j]).is_feedback(bytes@, j),
    {
        let mut patterns: Patterns = [Pattern::default();243];
        let mut j: usize = 0;
        while j < PATTERN_COUNT
            invariant
                j <= 243,
                all_lowercase(bytes@),
                forall|k: int| 0 <= k < j ==> (#[trigger] patterns@[k]).is_feedback(bytes@, k),
            decreases 243 - j,
        {
            let p = Pattern::for_outcome(bytes, j);
            patterns[j] = p;
            j += 1;
        }
        patterns
    }

    /// The pattern of the outcome `j` of the guess `bytes`.
    pub fn for_outcome(bytes: &WordBytes, j: usize) -> (res: Pattern)
        requires
            all_lowercase(bytes@),
            j < 243,
        ensures
            res.is_feedback(bytes@, j as int),
    {
        let ghost c = bytes@;
        let mut p = Pattern::default();
        let mut i: usize = 0;
        let mut pow: usize = 1;
        proof {
            crate::ascii_bit_set::lemma_zero_has_no_bit();
            assert(p.match_word@ =~= slots_with(c, j as int, 0, 0));
            assert(p.absent_word@ =~= slots_with(c, j as int, 1, 0));
            assert(p.present_letter@ =~= letters_with(c, j as int, 1, 0));
            assert(p.absent_letter@ =~= letters_with(c, j as int, 2, 0));
        }
        while i < FIVEGRAM
            invariant
                i <= 5,
                j < 243,
                c == bytes@,
                all_lowercase(c),
                pow == pow3(i as int),
                p.wf(),
                p.match_word@ == slots_with(c, j as int, 0, i as int),
                p.absent_word@ == slots_with(c, j as int, 1, i as int),
                p.present_letter@ == letters_with(c, j as int, 1, i as int),
                p.absent_letter@ == letters_with(c, j as int, 2, i as int),
            decreases 5 - i,
        {
            let l = bytes[i];
            let ghost before = p;
            proof {
                assert(before.match_word@[i as int] is None);
                assert(before.absent_word@[i as int] is None);
                assert(!before.match_word.is_set(i as int));
                assert(!before.absent_word.is_set(i as int));
            }
            match (j / pow) % 3 {
                0 => {
                    p.match_word.set_letter(l, i);
                },
                1 => {
                    p.absent_word.set_letter(l, i);
                    p.present_letter.set_letter(l);
                },
                _ => {
                    p.absent_letter.set_letter(l);
                },
            }
            proof {
                let n = i as int;
                let d = digit(j as int, n);
                assert(d == (j / pow) % 3);
                assert(p.match_word@ =~= slots_with(c, j as int, 0, n + 1));
                assert(p.absent_word@ =~= slots_with(c, j as int, 1, n + 1));
                lemma_letters_with_step(c, j as int, 1, n);
                lemma_letters_with_step(c, j as int, 2, n);
            }
            i += 1;
            pow = pow * 3;
        }
        p
    }

    /// The four parts of the pattern as text.
    pub fn to_text(&self) -> (res: String)
        requires
            self.wf(),
        ensures
            res@ == "Pattern { match_word: `"@ + Seq::new(5, |i: int| self.match_word.char_at(i))
                + "`, present_letter: `"@ + self.present_letter.spelled(26) + "`, absent_word: `"@
                + Seq::new(5, |i: int| self.absent_word.char_at(i)) + "`, absent_letter: `"@
                + self.absent_letter.spelled(26) + "` }"@,
    {
        let mut text = String::from_str("Pattern { match_word: `");
        text.append(self.match_word.to_text().as_str());
        text.append("`, present_letter: `");
        text.append(self.present_letter.to_text().as_str());
        text.append("`, absent_word: `");
        text.append(self.absent_word.to_text().as_str());
        text.append("`, absent_letter: `");
        text.append(self.absent_letter.to_text().as_str());
        text.append("` }");
        text
    }

    /// The four tests on the packed forms that decide a match.
    pub open spec fn matches(&self, word: &Word) -> bool {
        &&& (word.letters.set & self.present_letter.set) ^ self.present_letter.set == 0
        &&& word.letters.set & self.absent_letter.set == 0
        &&& word.fivegram.difference(&self.match_word) == 0
        &&& !any_slot_zero(word.fivegram.intersection(&self.absent_word))
    }

    /// Whether the pattern admits the word with the letters `w`: the word
    /// holds every letter of `present_letter` and none of `absent_letter`,
    /// holds each letter of `match_word` at its position, and holds no
    /// letter of `absent_word` at its position.
    pub open spec fn admits(&self, w: Seq<u8>) -> bool {
        &&& self.present_letter@.subset_of(w.to_set())
        &&& self.absent_letter@.disjoint(w.to_set())
        &&& forall|i: int|
            0 <= i < 5 && self.match_word.is_set(i) ==> self.match_word.letter_at(i) == Some(w[i])
        &&& forall|i: int|
            0 <= i < 5 && self.absent_word.is_set(i) ==> self.absent_word.letter_at(i) != Some(w[i])
    }

    /// Whether the pattern admits `word`.
    #[inline]
    pub fn matches_word(&self, word: &Word) -> (res: bool)
        ensures
            res == self.matches(word),
            self.wf() && word.wf() ==> res == self.admits(word@),
    {
        proof {
            if self.wf() && word.wf() {
                lemma_matches_is_admits(*self, *word);
            }
        }
        word.letters.is_superset(&self.present_letter) && word.letters.is_disjoint(
            &self.absent_letter,
        ) && word.fivegram.exact_match(&self.match_word) && !word.fivegram.any_pos_match(
            &self.absent_word,
        )
    }
}

/// For each word taken as a guess, its 243 patterns.
pub fn all_patterns(words: &[Word]) -> (res: Vec<Patterns>)
    requires
        forall|c: int| 0 <= c < words@.len() ==> (#[trigger] words@[c]).wf(),
    ensures
        res@.len() == words@.len(),
        forall|c: int, j: int|
            0 <= c < words@.len() && 0 <= j < 243 ==> (#[trigger] res@[c]@[j]).is_feedback(
                words@[c]@,
                j,
            ),
{
    let mut table: Vec<Patterns> = Vec::new();
    let mut c: usize = 0;
    while c < words.len()
        invariant
            c <= words@.len(),
            table@.len() == c,
            forall|i: int| 0 <= i < words@.len() ==> (#[trigger] words@[i]).wf(),
            forall|i: int, j: int|
                0 <= i < c && 0 <= j < 243 ==> (#[trigger] table@[i]@[j]).is_feedback(
                    words@[i]@,
                    j,
                ),
        decreases words@.len() - c,
    {
        let bytes = words[c].bytes();
        proof {
            assert(words@[c as int].wf());
            lemma_word_letters(words@[c as int]);
        }
        let patterns = Pattern::from_bytes(&bytes);
        table.push(patterns);
        c += 1;
    }
    table
}

/// There is one pattern for each outcome of a guess: `is_feedback` holds of
/// no two patterns for the same guess and outcome.
pub proof fn lemma_feedback_unique(p: Pattern, q: Pattern, c: Seq<u8>, j: int)
    requires
        p.is_feedback(c, j),
        q.is_feedback(c, j),
    ensures
        p == q,
{
    crate::fivegram::lemma_view_determines_fivegram(p.match_word, q.match_word);
    crate::fivegram::lemma_view_determines_fivegram(p.absent_word, q.absent_word);
    crate::ascii_bit_set::lemma_view_determines_set(p.present_letter, q.present_letter);
    crate::ascii_bit_set::lemma_view_determines_set(p.absent_letter, q.absent_letter);
}

/// One more position adds its letter to the letters of which the outcome
/// says `d`, if the outcome says `d` of it.
pub proof fn lemma_letters_with_step(c: Seq<u8>, j: int, d: int, n: int)
    requires
        0 <= n,
    ensures
        letters_with(c, j, d, n + 1) == if digit(j, n) == d {
            letters_with(c, j, d, n).insert(c[n])
        } else {
            letters_with(c, j, d, n)
        },
{
    let small = letters_with(c, j, d, n);
    let big = letters_with(c, j, d, n + 1);
    let want = if digit(j, n) == d {
        small.insert(c[n])
    } else {
        small
    };
    assert forall|l: u8| big.contains(l) == want.contains(l) by {
        if big.contains(l) {
            let i = choose|i: int| 0 <= i < n + 1 && digit(j, i) == d && #[trigger] c[i] == l;
            if i < n {
                assert(small.contains(l));
            }
        }
        if small.contains(l) {
            let i = choose|i: int| 0 <= i < n && digit(j, i) == d && #[trigger] c[i] == l;
            assert(0 <= i < n + 1 && digit(j, i) == d && c[i] == l);
        }
        if digit(j, n) == d && l == c[n] {
            assert(0 <= n < n + 1 && digit(j, n) == d && c[n] == l);
        }
    }
    assert(big =~= want);
}

/// On well-formed values the four tests on the packed forms decide what
/// `admits` says of the letters.
pub proof fn lemma_matches_is_admits(p: Pattern, word: Word)
    requires
        p.wf(),
        word.wf(),
    ensures
        p.matches(&word) == p.admits(word@),
{
    let w = word@;
    let f = word.fivegram;
    lemma_word_letters(word);
    crate::ascii_bit_set::lemma_superset(word.letters, p.present_letter);
    crate::ascii_bit_set::lemma_disjoint(word.letters, p.absent_letter);
    assert(word.letters@.disjoint(p.absent_letter@) == p.absent_letter@.disjoint(word.letters@));
    crate::fivegram::lemma_exact_match(f, p.match_word);
    crate::fivegram::lemma_any_pos_match(f, p.absent_word);
    let any = exists|i: int| 0 <= i < 5 && #[trigger] f.agrees_at(&p.absent_word, i);
    assert(!any == (forall|i: int|
        0 <= i < 5 && p.absent_word.is_set(i) ==> p.absent_word.letter_at(i) != Some(w[i]))) by {
        if any {
            let i = choose|i: int| 0 <= i < 5 && #[trigger] f.agrees_at(&p.absent_word, i);
            assert(p.absent_word.letter_at(i) == Some(w[i]));
        }
        if !any {
            assert forall|i: int| 0 <= i < 5 && p.absent_word.is_set(i) implies p.absent_word.letter_at(
                i,
            ) != Some(w[i]) by {
                assert(!f.agrees_at(&p.absent_word, i));
            }
        }
    }
}

} // verus!
