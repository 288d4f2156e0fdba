//! Four patterns side by side, one in each lane, so that one pass of lane
//! operations matches a word against all four.

use vstd::prelude::*;
use crate::ascii_bit_set::AsciiBitSet;
use crate::fivegram::Fivegram;
use crate::pattern::{Pattern, Patterns, PATTERN_COUNT};
use crate::word::Word;

verus! {

/// Number of lanes: the width that every target has.
pub const SIMD_WIDTH: usize = 4;

/// Number of lane groups that hold the 243 patterns of a guess.
pub const SIMD_PATTERN_COUNT: usize = 61;

/// Four machine words, one in each lane.
pub type Simd = [u32; 4];

/// Four signed counters, one in each lane.
pub type FreqSimd = [i32; 4];

/// Four truth values, one in each lane.
pub type Mask = [bool; 4];

/// The lane groups of one guess.
pub type SimdPatterns = [SimdPattern; 61];

/// The same word in every lane.
#[inline]
pub fn splat(x: u32) -> (res: Simd)
    ensures
        forall|l: int| 0 <= l < 4 ==> res@[l] == x,
{
    [x, x, x, x]
}

/// Lane by lane, the bits that `a` and `b` share.
#[inline]
pub fn lanes_and(a: &Simd, b: &Simd) -> (res: Simd)
    ensures
        forall|l: int| 0 <= l < 4 ==> res@[l] == a@[l] & b@[l],
{
    [a[0] & b[0], a[1] & b[1], a[2] & b[2], a[3] & b[3]]
}

/// Lane by lane, the bits of `a` or of `b`.
#[inline]
pub fn lanes_or(a: &Simd, b: &Simd) -> (res: Simd)
    ensures
        forall|l: int| 0 <= l < 4 ==> res@[l] == a@[l] | b@[l],
{
    [a[0] | b[0], a[1] | b[1], a[2] | b[2], a[3] | b[3]]
}

/// Lane by lane, the bits in which `a` and `b` differ.
#[inline]
pub fn lanes_xor(a: &Simd, b: &Simd) -> (res: Simd)
    ensures
        forall|l: int| 0 <= l < 4 ==> res@[l] == a@[l] ^ b@[l],
{
    [a[0] ^ b[0], a[1] ^ b[1], a[2] ^ b[2], a[3] ^ b[3]]
}

/// Lane by lane, the bits that `a` does not have.
#[inline]
pub fn lanes_not(a: &Simd) -> (res: Simd)
    ensures
        forall|l: int| 0 <= l < 4 ==> res@[l] == !a@[l],
{
    [!a[0], !a[1], !a[2], !a[3]]
}

/// Lane by lane, `a` shifted right by `shift` bits.
#[inline]
pub fn lanes_shr(a: &Simd, shift: u32) -> (res: Simd)
    requires
        shift < 32,
    ensures
        forall|l: int| 0 <= l < 4 ==> res@[l] == a@[l] >> shift,
{
    [a[0] >> shift, a[1] >> shift, a[2] >> shift, a[3] >> shift]
}

/// Lane by lane, whether `a` equals `b`.
#[inline]
pub fn lanes_eq(a: &Simd, b: &Simd) -> (res: Mask)
    ensures
        forall|l: int| 0 <= l < 4 ==> res@[l] == (a@[l] == b@[l]),
{
    [a[0] == b[0], a[1] == b[1], a[2] == b[2], a[3] == b[3]]
}

/// Lane by lane, whether both hold.
#[inline]
pub fn mask_and(a: &Mask, b: &Mask) -> (res: Mask)
    ensures
        forall|l: int| 0 <= l < 4 ==> res@[l] == (a@[l] && b@[l]),
{
    [a[0] && b[0], a[1] && b[1], a[2] && b[2], a[3] && b[3]]
}

/// Lane by lane, whether one of the two holds.
#[inline]
pub fn mask_or(a: &Mask, b: &Mask) -> (res: Mask)
    ensures
        forall|l: int| 0 <= l < 4 ==> res@[l] == (a@[l] || b@[l]),
{
    [a[0] || b[0], a[1] || b[1], a[2] || b[2], a[3] || b[3]]
}

/// Lane by lane, whether `a` does not hold.
#[inline]
pub fn mask_not(a: &Mask) -> (res: Mask)
    ensures
        forall|l: int| 0 <= l < 4 ==> res@[l] == !a@[l],
{
    [!a[0], !a[1], !a[2], !a[3]]
}

/// Lane by lane, all ones (the number -1) where `a` holds and zero where
/// it does not.
#[inline]
pub fn mask_to_int(a: &Mask) -> (res: FreqSimd)
    ensures
        forall|l: int|
            0 <= l < 4 ==> res@[l] == if a@[l] {
                -1i32
            } else {
                0i32
            },
{
    [
        if a[0] {
            -1
        } else {
            0
        },
        if a[1] {
            -1
        } else {
            0
        },
        if a[2] {
            -1
        } else {
            0
        },
        if a[3] {
            -1
        } else {
            0
        },
    ]
}

/// Lane by lane, `a - b`, wrapping around at the bounds of the type.
#[inline]
pub fn freq_sub(a: &FreqSimd, b: &FreqSimd) -> (res: FreqSimd)
    ensures
        forall|l: int| 0 <= l < 4 ==> res@[l] == a@[l].wrapping_sub(b@[l]),
{
    [
        a[0].wrapping_sub(b[0]),
        a[1].wrapping_sub(b[1]),
        a[2].wrapping_sub(b[2]),
        a[3].wrapping_sub(b[3]),
    ]
}

/// Four patterns, one in each lane of every field.
#[derive(Debug, Copy, Clone)]
pub struct SimdPattern {
    pub absent_letter: Simd,
    pub present_letter: Simd,
    pub match_word: Simd,
    pub match_word_mask: Simd,
    pub absent_word: Simd,
    pub absent_word_mask: Simd,
}

/// The pattern that constrains nothing, which fills the lanes that hold no
/// pattern of the guess.
pub open spec fn empty_pattern() -> Pattern {
    Pattern {
        match_word: Fivegram { word: 0, letter_mask: 0 },
        present_letter: AsciiBitSet { set: 0 },
        absent_word: Fivegram { word: 0, letter_mask: 0 },
        absent_letter: AsciiBitSet { set: 0 },
    }
}

/// The patterns that the lane groups hold: pattern `j` is in lane `j % 4`
/// of group `j / 4`.
pub open spec fn unpack(groups: Seq<SimdPattern>) -> Seq<Pattern> {
    Seq::new(243, |j: int| groups[j / 4].lane(j % 4))
}

impl Default for SimdPattern {
    /// The pattern that constrains nothing, in every lane.
    fn default() -> (res: Self)
        ensures
            forall|l: int| 0 <= l < 4 ==> res.lane(l) == empty_pattern(),
    {
        SimdPattern {
            absent_letter: splat(0),
            present_letter: splat(0),
            match_word: splat(0),
            match_word_mask: splat(0),
            absent_word: splat(0),
            absent_word_mask: splat(0),
        }
    }
}

impl SimdPattern {
    /// The pattern in lane `l`.
    pub open spec fn lane(&self, l: int) -> Pattern {
        Pattern {
            match_word: Fivegram { word: self.match_word@[l], letter_mask: self.match_word_mask@[l] },
            present_letter: AsciiBitSet { set: self.present_letter@[l] },
            absent_word: Fivegram {
                word: self.absent_word@[l],
                letter_mask: self.absent_word_mask@[l],
            },
            absent_letter: AsciiBitSet { set: self.absent_letter@[l] },
        }
    }

    /// The 243 patterns of a guess in 61 groups of four lanes. The last
    /// group holds three patterns; its fourth lane constrains nothing.
    pub fn from_patterns(patterns: &Patterns) -> (res: SimdPatterns)
        ensures
            unpack(res@) == patterns@,
            res@[60].lane(3) == empty_pattern(),
    {
        let mut groups: SimdPatterns = [SimdPattern::default();61];
        let mut g: usize = 0;
        while g < SIMD_PATTERN_COUNT
            invariant
                g <= 61,
                forall|h: int, l: int|
                    0 <= h < g && 0 <= l < 4 ==> #[trigger] groups@[h].lane(l) == if 4 * h + l < 243 {
                        patterns@[4 * h + l]
                    } else {
                        empty_pattern()
                    },
            decreases 61 - g,
        {
            let mut absent_letters: Simd = [0u32;4];
            let mut present_letters: Simd = [0u32;4];
            let mut match_word: Simd = [0u32;4];
            let mut match_word_mask: Simd = [0u32;4];
            let mut absent_word: Simd = [0u32;4];
            let mut absent_word_mask: Simd = [0u32;4];
            let offset: usize = g * SIMD_WIDTH;
            let mut i: usize = 0;
            while i < SIMD_WIDTH && offset + i < PATTERN_COUNT
                invariant
                    i <= 4,
                    offset == 4 * g,
                    offset + i <= 243,
                    g < 61,
                    forall|l: int|
                        0 <= l < i ==> {
                            &&& absent_letters@[l] == patterns@[offset + l].absent_letter.set
                            &&& present_letters@[l] == patterns@[offset + l].present_letter.set
                            &&& match_word@[l] == patterns@[offset + l].match_word.word
                            &&& match_word_mask@[l] == patterns@[offset + l].match_word.letter_mask
                            &&& absent_word@[l] == patterns@[offset + l].absent_word.word
                            &&& absent_word_mask@[l] == patterns@[offset + l].absent_word.letter_mask
                        },
                    forall|l: int|
                        i <= l < 4 ==> {
                            &&& absent_letters@[l] == 0
                            &&& present_letters@[l] == 0
                            &&& match_word@[l] == 0
                            &&& match_word_mask@[l] == 0
                            &&& absent_word@[l] == 0
                            &&& absent_word_mask@[l] == 0
                        },
                decreases 4 - i,
            {
                let pm = &patterns[offset + i];
                absent_letters[i] = pm.absent_letter.set;
                present_letters[i] = pm.present_letter.set;
                match_word[i] = pm.match_word.word;
                match_word_mask[i] = pm.match_word.letter_mask;
                absent_word[i] = pm.absent_word.word;
                absent_word_mask[i] = pm.absent_word.letter_mask;
                i += 1;
            }
            let group = SimdPattern {
                absent_letter: absent_letters,
                present_letter: present_letters,
                match_word,
                match_word_mask,
                absent_word,
                absent_word_mask,
            };
            proof {
                assert forall|l: int| 0 <= l < 4 implies group.lane(l) == if 4 * g + l < 243 {
                    patterns@[4 * g + l]
                } else {
                    empty_pattern()
                } by {
                    if l < i {
                        assert(4 * g + l < 243);
                    } else {
                        assert(4 * g + l >= 243);
                    }
                }
            }
            groups[g] = group;
            g += 1;
        }
        proof {
            assert forall|j: int| 0 <= j < 243 implies unpack(groups@)[j] == patterns@[j] by {
                let h = j / 4;
                let l = j % 4;
                assert(groups@[h].lane(l) == if 4 * h + l < 243 {
                    patterns@[4 * h + l]
                } else {
                    empty_pattern()
                });
            }
            assert(unpack(groups@) =~= patterns@);
            let last: int = 60;
            assert(groups@[last].lane(3) == if 4 * last + 3 < 243 {
                patterns@[4 * last + 3]
            } else {
                empty_pattern()
            });
        }
        groups
    }

    /// Lane by lane, whether the pattern in that lane admits `word`.
    #[inline]
    pub fn matches_word(&self, word: &Word) -> (res: Mask)
        ensures
            forall|l: int| 0 <= l < 4 ==> res@[l] == self.lane(l).matches(word),
    {
        let letters = splat(word.letters.set);
        let is_superset = AsciiBitSet::is_superset_simd(&letters, &self.present_letter);
        let is_disjoint = AsciiBitSet::is_disjoint_simd(&letters, &self.absent_letter);

        let word = splat(word.fivegram.word);
        let is_exact_match = Fivegram::exact_match_simd(
            &word,
            &self.match_word_mask,
            &self.match_word,
        );
        let is_any_letter_match = Fivegram::any_pos_match_simd(
            &word,
            &self.absent_word_mask,
            &self.absent_word,
        );

        let zeros = splat(0);
        mask_and(
            &mask_and(
                &mask_and(&lanes_eq(&is_superset, &zeros), &lanes_eq(&is_disjoint, &zeros)),
                &lanes_eq(&is_exact_match, &zeros),
            ),
            &mask_not(&is_any_letter_match),
        )
    }
}

/// For each guess, its 243 patterns in groups of four lanes.
pub fn all_simd_patterns(patterns: &[Patterns]) -> (res: Vec<SimdPatterns>)
    ensures
        res@.len() == patterns@.len(),
        forall|c: int| 0 <= c < patterns@.len() ==> unpack(#[trigger] res@[c]@) == patterns@[c]@,
{
    let mut table: Vec<SimdPatterns> = Vec::new();
    let mut c: usize = 0;
    while c < patterns.len()
        invariant
            c <= patterns@.len(),
            table@.len() == c,
            forall|i: int| 0 <= i < c ==> unpack(#[trigger] table@[i]@) == patterns@[i]@,
        decreases patterns@.len() - c,
    {
        let groups = SimdPattern::from_patterns(&patterns[c]);
        table.push(groups);
        c += 1;
    }
    table
}

} // verus!
