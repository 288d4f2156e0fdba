//! Five letter slots packed into one machine word, with a mask that tells
//! which of the slots are constrained.

use vstd::prelude::*;
use crate::ascii_bit_set::is_lowercase;
use crate::simd_pattern::{
    lanes_and, lanes_eq, lanes_not, lanes_or, lanes_shr, lanes_xor, mask_or, splat, Mask, Simd,
};

verus! {

/// Number of letter slots.
pub const FIVEGRAM: usize = 5;

/// The five bits of `x` that make up slot `i`.
pub open spec fn slot(x: u32, i: u32) -> u32 {
    (x >> (5 * i)) & 0x1f
}

/// Whether one of the five slots of `x` is zero.
pub open spec fn any_slot_zero(x: u32) -> bool {
    exists|i: u32| i < 5 && #[trigger] slot(x, i) == 0
}

/// Zero exactly in the bits where `m` is set and `w` differs from `v`,
/// given that `v` is zero where `m` is.
pub open spec fn masked_difference(w: u32, m: u32, v: u32) -> u32 {
    (w & m) ^ v
}

/// As `masked_difference`, with ones wherever `m` is not set.
pub open spec fn masked_intersection(w: u32, m: u32, v: u32) -> u32 {
    ((w & m) ^ v) | !m
}

/// Up to five letters at fixed positions.
///
/// Slot `i` takes bits `5 * i .. 5 * i + 5` of both fields. In `word` it
/// holds 0 for an unconstrained slot and 1 to 26 for the letters `a` to `z`;
/// in `letter_mask` it is all ones exactly when the slot is constrained.
#[derive(Debug, Copy, Clone)]
pub struct Fivegram {
    pub word: u32,
    pub letter_mask: u32,
}

impl View for Fivegram {
    type V = Seq<Option<u8>>;

    /// For each of the five slots, the letter that it is constrained to.
    open spec fn view(&self) -> Seq<Option<u8>> {
        Seq::new(5, |i: int| self.letter_at(i))
    }
}

impl Default for Fivegram {
    /// No slot is constrained.
    fn default() -> (res: Self)
        ensures
            res.word == 0,
            res.letter_mask == 0,
            res.wf(),
            res@ == Seq::new(5, |i: int| None::<u8>),
    {
        let res = Fivegram { word: 0, letter_mask: 0 };
        proof {
            assert forall|i: u32| i < 5 implies #[trigger] slot(0, i) == 0 by {
                assert(i < 5 ==> (0u32 >> (5 * i)) & 0x1f == 0) by (bit_vector);
            }
            assert(res@ =~= Seq::new(5, |i: int| None::<u8>));
        }
        res
    }
}

impl Fivegram {
    /// Whether slot `i` is constrained.
    pub open spec fn is_set(&self, i: int) -> bool {
        slot(self.letter_mask, i as u32) == 0x1f
    }

    /// The letter that slot `i` is constrained to, if it is.
    pub open spec fn letter_at(&self, i: int) -> Option<u8> {
        if self.is_set(i) {
            Some((slot(self.word, i as u32) + 96) as u8)
        } else {
            None
        }
    }

    /// Both fields use the five slots only; a slot of the mask is all zeros
    /// or all ones; `word` holds a letter where the mask is set and zero
    /// elsewhere.
    pub open spec fn wf(&self) -> bool {
        &&& self.word < 0x200_0000
        &&& self.letter_mask < 0x200_0000
        &&& forall|i: u32|
            i < 5 ==> {
                &&& #[trigger] slot(self.letter_mask, i) == 0 || slot(self.letter_mask, i) == 0x1f
                &&& slot(self.letter_mask, i) == 0 ==> slot(self.word, i) == 0
                &&& slot(self.letter_mask, i) == 0x1f ==> 1 <= slot(self.word, i) <= 26
            }
    }

    /// All five slots are constrained.
    pub open spec fn is_full(&self) -> bool {
        forall|i: int| 0 <= i < 5 ==> self.is_set(i)
    }

    /// The slots that `pattern` must agree with: zero exactly where the
    /// constrained slots of `pattern` hold what `self` holds there.
    pub open spec fn difference(&self, pattern: &Self) -> u32 {
        masked_difference(self.word, pattern.letter_mask, pattern.word)
    }

    /// As `difference`, with every unconstrained slot of `pattern` filled
    /// with ones.
    pub open spec fn intersection(&self, pattern: &Self) -> u32 {
        masked_intersection(self.word, pattern.letter_mask, pattern.word)
    }

    /// Whether `self` and `pattern` hold the same letter in slot `i`, which
    /// `pattern` constrains.
    pub open spec fn agrees_at(&self, pattern: &Self, i: int) -> bool {
        pattern.is_set(i) && self.letter_at(i) == pattern.letter_at(i)
    }

    /// The fivegram that holds the letters of `bytes` in its first slots.
    #[inline]
    pub fn from_bytes(bytes: &[u8]) -> (res: Self)
        requires
            bytes@.len() <= 5,
            forall|i: int| 0 <= i < bytes@.len() ==> is_lowercase(#[trigger] bytes@[i]),
        ensures
            res.wf(),
            res@ == Seq::new(
                5,
                |i: int|
                    if i < bytes@.len() {
                        Some(bytes@[i])
                    } else {
                        None
                    },
            ),
    {
        let mut res = Fivegram::default();
        let mut i: usize = 0;
        while i < bytes.len()
            invariant
                i <= bytes@.len() <= 5,
                forall|j: int| 0 <= j < bytes@.len() ==> is_lowercase(#[trigger] bytes@[j]),
                res.wf(),
                res@ == Seq::new(
                    5,
                    |j: int|
                        if j < i {
                            Some(bytes@[j])
                        } else {
                            None
                        },
                ),
            decreases bytes@.len() - i,
        {
            let ghost before = res;
            assert(before@[i as int] is None);
            res.set_letter(bytes[i], i);
            i += 1;
            assert(res@ =~= Seq::new(
                5,
                |j: int|
                    if j < i {
                        Some(bytes@[j])
                    } else {
                        None
                    },
            ));
        }
        res
    }

    /// The character that stands for slot `i` in text: its letter, or `_`
    /// where the slot is unconstrained.
    pub open spec fn char_at(&self, i: int) -> char {
        match self.letter_at(i) {
            Some(l) => l as char,
            None => '_',
        }
    }

    /// The five slots as text, `_` for a slot that is unconstrained.
    pub fn to_text(&self) -> (res: String)
        requires
            self.wf(),
        ensures
            res@ == Seq::new(5, |i: int| self.char_at(i)),
    {
        let mut text = String::new();
        let mut i: usize = 0;
        while i < FIVEGRAM
            invariant
                i <= 5,
                self.wf(),
                text@ == Seq::new(i as nat, |j: int| self.char_at(j)),
            decreases 5 - i,
        {
            let shift: u32 = (i * FIVEGRAM) as u32;
            let mask: u32 = self.letter_mask;
            let word: u32 = self.word;
            let masked = (mask >> shift) & 0b11111 == 0;
            proof {
                assert(slot(mask, i as u32) == (mask >> shift) & 0x1f);
                assert(slot(word, i as u32) == (word >> shift) & 0x1f);
                assert(slot(mask, i as u32) == 0 || slot(mask, i as u32) == 0x1f);
            }
            if masked {
                text.push('_');
            } else {
                let b: u8 = ((word >> shift) & 0b11111) as u8;
                text.push((b - 1 + 97) as char);
            }
            i += 1;
            assert(text@ =~= Seq::new(i as nat, |j: int| self.char_at(j)));
        }
        text
    }

    /// Constrains slot `pos` to the letter `l`.
    #[inline]
    pub fn set_letter(&mut self, l: u8, pos: usize)
        requires
            is_lowercase(l),
            pos < 5,
        ensures
            final(self).word == old(self).word | (((l - 96) as u32) << (5 * pos as u32)),
            final(self).letter_mask == old(self).letter_mask | (0x1fu32 << (5 * pos as u32)),
            old(self).wf() && !old(self).is_set(pos as int) ==> final(self).wf() && final(self)@
                == old(self)@.update(pos as int, Some(l)),
    {
        let code: u32 = (l - 96) as u32;
        let shift: u32 = (pos * FIVEGRAM) as u32;
        proof {
            let p = pos as u32;
            assert(shift == 5 * p);
            lemma_set_slot(self.word, code, p);
            lemma_set_slot(self.letter_mask, 0x1f, p);
        }
        self.word |= code << shift;
        self.letter_mask |= 0b11111u32 << shift;
        proof {
            let before = *old(self);
            let after = *self;
            if before.wf() && !before.is_set(pos as int) {
                assert(after.wf());
                assert forall|i: int| 0 <= i < 5 implies after@[i] == before@.update(
                    pos as int,
                    Some(l),
                )[i] by {
                    let j = i as u32;
                    assert(slot(after.letter_mask, j) == if j == pos as u32 {
                        0x1f
                    } else {
                        slot(before.letter_mask, j)
                    });
                }
                assert(after@ =~= before@.update(pos as int, Some(l)));
            }
        }
    }

    /// Whether `self` holds, in every slot that `pattern` constrains, the
    /// letter that `pattern` holds there.
    #[inline]
    pub fn exact_match(&self, pattern: &Self) -> (res: bool)
        ensures
            res == (self.difference(pattern) == 0),
            self.wf() && pattern.wf() ==> res == (forall|i: int|
                0 <= i < 5 && pattern.is_set(i) ==> self.letter_at(i) == pattern.letter_at(i)),
    {
        proof {
            if self.wf() && pattern.wf() {
                lemma_exact_match(*self, *pattern);
            }
        }
        (self.word & pattern.letter_mask) ^ pattern.word == 0
    }

    /// Whether `self` holds, in some slot that `pattern` constrains, the
    /// letter that `pattern` holds there.
    #[inline]
    pub fn any_pos_match(&self, pattern: &Self) -> (res: bool)
        ensures
            res == any_slot_zero(self.intersection(pattern)),
            self.wf() && pattern.wf() ==> res == (exists|i: int|
                0 <= i < 5 && #[trigger] self.agrees_at(pattern, i)),
    {
        let intersection: u32 = ((self.word & pattern.letter_mask) ^ pattern.word)
            | !pattern.letter_mask;
        let res = (intersection & 0b11111) == 0 || ((intersection >> 5) & 0b11111) == 0 || ((
        intersection >> 10) & 0b11111) == 0 || ((intersection >> 15) & 0b11111) == 0 || ((
        intersection >> 20) & 0b11111) == 0;
        proof {
            lemma_five_slots(intersection);
            if self.wf() && pattern.wf() {
                lemma_any_pos_match(*self, *pattern);
            }
        }
        res
    }

    /// Lane by lane, the test of `exact_match` of the words in `word`
    /// against the patterns with the masks `letter_mask` and the letters
    /// `pattern`: a lane of the result is zero exactly when the word in that
    /// lane matches.
    #[inline]
    pub fn exact_match_simd(word: &Simd, letter_mask: &Simd, pattern: &Simd) -> (res: Simd)
        ensures
            forall|l: int|
                0 <= l < 4 ==> res@[l] == masked_difference(word@[l], letter_mask@[l], pattern@[l]),
    {
        lanes_xor(&lanes_and(word, letter_mask), pattern)
    }

    /// Lane by lane, the test of `any_pos_match` of the words in `word`
    /// against the patterns with the masks `letter_mask` and the letters
    /// `pattern`.
    #[inline]
    pub fn any_pos_match_simd(word: &Simd, letter_mask: &Simd, pattern: &Simd) -> (res: Mask)
        ensures
            forall|l: int|
                0 <= l < 4 ==> res@[l] == any_slot_zero(
                    masked_intersection(word@[l], letter_mask@[l], pattern@[l]),
                ),
    {
        let intersection = lanes_or(
            &lanes_xor(&lanes_and(word, letter_mask), pattern),
            &lanes_not(letter_mask),
        );
        let zeros = splat(0);
        let first_five_mask = splat(0b11111);
        let mut acc: Mask = [false, false, false, false];
        let mut i: u32 = 0;
        while i < 5
            invariant
                i <= 5,
                forall|l: int| 0 <= l < 4 ==> zeros@[l] == 0,
                forall|l: int| 0 <= l < 4 ==> first_five_mask@[l] == 0x1f,
                forall|l: int|
                    0 <= l < 4 ==> intersection@[l] == masked_intersection(
                        word@[l],
                        letter_mask@[l],
                        pattern@[l],
                    ),
                forall|l: int|
                    0 <= l < 4 ==> acc@[l] == (exists|k: u32|
                        k < i && #[trigger] slot(intersection@[l], k) == 0),
            decreases 5 - i,
        {
            let shifted = lanes_shr(&intersection, 5 * i);
            let hit = lanes_eq(&lanes_and(&shifted, &first_five_mask), &zeros);
            let ghost before = acc;
            acc = mask_or(&acc, &hit);
            proof {
                assert forall|l: int| 0 <= l < 4 implies acc@[l] == (exists|k: u32|
                    k < i + 1 && #[trigger] slot(intersection@[l], k) == 0) by {
                    let x = intersection@[l];
                    assert(hit@[l] == (slot(x, i) == 0));
                    if before@[l] {
                        let k = choose|k: u32| k < i && #[trigger] slot(x, k) == 0;
                        assert(k < i + 1 && slot(x, k) == 0);
                    }
                    if exists|k: u32| k < i + 1 && #[trigger] slot(x, k) == 0 {
                        let k = choose|k: u32| k < i + 1 && #[trigger] slot(x, k) == 0;
                        if k < i {
                            assert(before@[l]);
                        }
                    }
                }
            }
            i += 1;
        }
        proof {
            assert forall|l: int| 0 <= l < 4 implies acc@[l] == any_slot_zero(
                masked_intersection(word@[l], letter_mask@[l], pattern@[l]),
            ) by {
                let x = intersection@[l];
                assert(x == masked_intersection(word@[l], letter_mask@[l], pattern@[l]));
                assert(acc@[l] == (exists|k: u32| k < 5 && #[trigger] slot(x, k) == 0));
            }
        }
        acc
    }
}

/// Two well-formed fivegrams hold the same letter in a slot that the second
/// constrains exactly when their words hold the same five bits there.
proof fn lemma_agrees_at(f: Fivegram, p: Fivegram, i: int)
    requires
        f.wf(),
        p.wf(),
        0 <= i < 5,
        p.is_set(i),
    ensures
        (f.letter_at(i) == p.letter_at(i)) == (slot(f.word, i as u32) == slot(p.word, i as u32)),
{
    let j = i as u32;
    assert(slot(f.letter_mask, j) == 0 || slot(f.letter_mask, j) == 0x1f);
    assert(slot(p.letter_mask, j) == 0x1f);
    assert(slot(f.word, j) <= 26);
    assert(1 <= slot(p.word, j) <= 26);
}

/// The test on the packed forms decides whether `f` holds the letter of
/// `p` in every slot that `p` constrains.
pub proof fn lemma_exact_match(f: Fivegram, p: Fivegram)
    requires
        f.wf(),
        p.wf(),
    ensures
        (f.difference(&p) == 0) == (forall|i: int|
            0 <= i < 5 && p.is_set(i) ==> f.letter_at(i) == p.letter_at(i)),
{
    lemma_difference_slots(f.word, p.letter_mask, p.word);
    let x = f.difference(&p);
    if x == 0 {
        assert forall|i: int| 0 <= i < 5 && p.is_set(i) implies f.letter_at(i) == p.letter_at(
            i,
        ) by {
            assert(slot(x, i as u32) == 0);
            lemma_agrees_at(f, p, i);
        }
    }
    if forall|i: int| 0 <= i < 5 && p.is_set(i) ==> f.letter_at(i) == p.letter_at(i) {
        assert forall|i: u32| i < 5 implies #[trigger] slot(x, i) == 0 by {
            if p.is_set(i as int) {
                assert(f.letter_at(i as int) == p.letter_at(i as int));
                lemma_agrees_at(f, p, i as int);
            }
        }
    }
}

/// The test on the packed forms decides whether `f` holds the letter of
/// `p` in some slot that `p` constrains.
pub proof fn lemma_any_pos_match(f: Fivegram, p: Fivegram)
    requires
        f.wf(),
        p.wf(),
    ensures
        any_slot_zero(f.intersection(&p)) == (exists|i: int|
            0 <= i < 5 && #[trigger] f.agrees_at(&p, i)),
{
    lemma_intersection_slots(f.word, p.letter_mask, p.word);
    let y = f.intersection(&p);
    if exists|i: u32| i < 5 && #[trigger] slot(y, i) == 0 {
        let i = choose|i: u32| i < 5 && #[trigger] slot(y, i) == 0;
        assert(p.is_set(i as int));
        lemma_agrees_at(f, p, i as int);
        assert(f.agrees_at(&p, i as int));
    }
    if exists|i: int| 0 <= i < 5 && #[trigger] f.agrees_at(&p, i) {
        let i = choose|i: int| 0 <= i < 5 && #[trigger] f.agrees_at(&p, i);
        lemma_agrees_at(f, p, i);
        assert(slot(y, i as u32) == 0);
    }
}

/// Two words that use the five slots only and hold the same five bits in
/// each are the same word.
proof fn lemma_same_slots(a: u32, b: u32)
    requires
        a < 0x200_0000,
        b < 0x200_0000,
        forall|i: u32| i < 5 ==> #[trigger] slot(a, i) == slot(b, i),
    ensures
        a == b,
{
    lemma_five_slots(a);
    lemma_five_slots(b);
    assert(slot(a, 0) == slot(b, 0) && slot(a, 1) == slot(b, 1) && slot(a, 2) == slot(b, 2) && slot(
        a,
        3,
    ) == slot(b, 3) && slot(a, 4) == slot(b, 4));
    assert(a < 0x200_0000 && b < 0x200_0000 && a & 0x1f == b & 0x1f && (a >> 5) & 0x1f == (b >> 5)
        & 0x1f && (a >> 10) & 0x1f == (b >> 10) & 0x1f && (a >> 15) & 0x1f == (b >> 15) & 0x1f && (a
        >> 20) & 0x1f == (b >> 20) & 0x1f ==> a == b) by (bit_vector);
}

/// Two well-formed fivegrams with the same letters hold the same bits in
/// each slot.
proof fn lemma_same_slot(f: Fivegram, g: Fivegram, i: u32)
    requires
        f.wf(),
        g.wf(),
        f@ == g@,
        i < 5,
    ensures
        slot(f.letter_mask, i) == slot(g.letter_mask, i),
        slot(f.word, i) == slot(g.word, i),
{
    assert(f@[i as int] == g@[i as int]);
    assert(f.letter_at(i as int) == g.letter_at(i as int));
    assert(slot(f.letter_mask, i) == 0 || slot(f.letter_mask, i) == 0x1f);
    assert(slot(g.letter_mask, i) == 0 || slot(g.letter_mask, i) == 0x1f);
}

/// A well-formed fivegram is determined by the letters in its slots.
pub proof fn lemma_view_determines_fivegram(f: Fivegram, g: Fivegram)
    requires
        f.wf(),
        g.wf(),
        f@ == g@,
    ensures
        f == g,
{
    assert forall|i: u32| i < 5 implies #[trigger] slot(f.letter_mask, i) == slot(
        g.letter_mask,
        i,
    ) by {
        lemma_same_slot(f, g, i);
    }
    assert forall|i: u32| i < 5 implies #[trigger] slot(f.word, i) == slot(g.word, i) by {
        lemma_same_slot(f, g, i);
    }
    lemma_same_slots(f.letter_mask, g.letter_mask);
    lemma_same_slots(f.word, g.word);
}

/// The five slots, written out with the shift of each.
proof fn lemma_five_slots(x: u32)
    ensures
        slot(x, 0) == x & 0x1f,
        slot(x, 1) == (x >> 5) & 0x1f,
        slot(x, 2) == (x >> 10) & 0x1f,
        slot(x, 3) == (x >> 15) & 0x1f,
        slot(x, 4) == (x >> 20) & 0x1f,
        any_slot_zero(x) == (x & 0x1f == 0 || (x >> 5) & 0x1f == 0 || (x >> 10) & 0x1f == 0 || (x
            >> 15) & 0x1f == 0 || (x >> 20) & 0x1f == 0),
{
    assert((x >> (5 * 0u32)) & 0x1f == x & 0x1f) by (bit_vector);
    assert((x >> (5 * 1u32)) & 0x1f == (x >> 5) & 0x1f) by (bit_vector);
    assert((x >> (5 * 2u32)) & 0x1f == (x >> 10) & 0x1f) by (bit_vector);
    assert((x >> (5 * 3u32)) & 0x1f == (x >> 15) & 0x1f) by (bit_vector);
    assert((x >> (5 * 4u32)) & 0x1f == (x >> 20) & 0x1f) by (bit_vector);
    assert(any_slot_zero(x) == (slot(x, 0) == 0 || slot(x, 1) == 0 || slot(x, 2) == 0 || slot(x, 3)
        == 0 || slot(x, 4) == 0));
}

/// What `(w & m) ^ v` holds slot by slot, where each slot of `m` is all
/// zeros or all ones and `v` is zero where `m` is: it is zero as a whole
/// exactly when `w` equals `v` in every slot where `m` is set.
proof fn lemma_difference_slots(w: u32, m: u32, v: u32)
    requires
        m < 0x200_0000,
        v < 0x200_0000,
        forall|i: u32| i < 5 ==> #[trigger] slot(m, i) == 0 || slot(m, i) == 0x1f,
        forall|i: u32| i < 5 && #[trigger] slot(m, i) == 0 ==> slot(v, i) == 0,
    ensures
        forall|i: u32|
            i < 5 ==> (#[trigger] slot((w & m) ^ v, i) == 0 <==> (slot(m, i) == 0x1f ==> slot(w, i)
                == slot(v, i))),
        ((w & m) ^ v == 0) <==> (forall|i: u32| i < 5 ==> #[trigger] slot((w & m) ^ v, i) == 0),
{
    let x = (w & m) ^ v;
    assert forall|i: u32| i < 5 implies (#[trigger] slot(x, i) == 0 <==> (slot(m, i) == 0x1f
        ==> slot(w, i) == slot(v, i))) by {
        assert(slot(m, i) == 0 || slot(m, i) == 0x1f);
        assert(i < 5 && (m >> (5 * i)) & 0x1f == 0 && (v >> (5 * i)) & 0x1f == 0 ==> (((w & m) ^ v)
            >> (5 * i)) & 0x1f == 0) by (bit_vector);
        assert(i < 5 && (m >> (5 * i)) & 0x1f == 0x1f ==> (((((w & m) ^ v) >> (5 * i)) & 0x1f == 0)
            <==> ((w >> (5 * i)) & 0x1f == (v >> (5 * i)) & 0x1f))) by (bit_vector);
    }
    assert(m < 0x200_0000 && v < 0x200_0000 ==> (((w & m) ^ v == 0) <==> (((w & m) ^ v) >> (5
        * 0u32)) & 0x1f == 0 && (((w & m) ^ v) >> (5 * 1u32)) & 0x1f == 0 && (((w & m) ^ v) >> (5
        * 2u32)) & 0x1f == 0 && (((w & m) ^ v) >> (5 * 3u32)) & 0x1f == 0 && (((w & m) ^ v) >> (5
        * 4u32)) & 0x1f == 0)) by (bit_vector);
    assert(slot(x, 0) == 0 && slot(x, 1) == 0 && slot(x, 2) == 0 && slot(x, 3) == 0 && slot(x, 4)
        == 0 ==> forall|i: u32| i < 5 ==> #[trigger] slot(x, i) == 0);
}

/// What `((w & m) ^ v) | !m` holds slot by slot, where each slot of `m` is
/// all zeros or all ones: a slot is zero exactly when `m` is set there and
/// `w` equals `v` there.
proof fn lemma_intersection_slots(w: u32, m: u32, v: u32)
    requires
        forall|i: u32| i < 5 ==> #[trigger] slot(m, i) == 0 || slot(m, i) == 0x1f,
    ensures
        forall|i: u32|
            i < 5 ==> (#[trigger] slot(((w & m) ^ v) | !m, i) == 0 <==> (slot(m, i) == 0x1f
                && slot(w, i) == slot(v, i))),
{
    let y = ((w & m) ^ v) | !m;
    assert forall|i: u32| i < 5 implies (#[trigger] slot(y, i) == 0 <==> (slot(m, i) == 0x1f
        && slot(w, i) == slot(v, i))) by {
        assert(slot(m, i) == 0 || slot(m, i) == 0x1f);
        assert(i < 5 && (m >> (5 * i)) & 0x1f == 0 ==> ((((w & m) ^ v) | !m) >> (5 * i)) & 0x1f
            != 0) by (bit_vector);
        assert(i < 5 && (m >> (5 * i)) & 0x1f == 0x1f ==> ((((((w & m) ^ v) | !m) >> (5 * i))
            & 0x1f == 0) <==> ((w >> (5 * i)) & 0x1f == (v >> (5 * i)) & 0x1f))) by (bit_vector);
    }
}

/// Writing five bits `c` into slot `p` changes that slot only, and stays
/// within the five slots.
proof fn lemma_set_slot(x: u32, c: u32, p: u32)
    requires
        c < 32,
        p < 5,
    ensures
        forall|i: u32|
            i < 5 ==> #[trigger] slot(x | (c << (5 * p)), i) == if i == p {
                slot(x, i) | c
            } else {
                slot(x, i)
            },
        slot(x, p) == 0 ==> slot(x | (c << (5 * p)), p) == c,
        x < 0x200_0000 ==> x | (c << (5 * p)) < 0x200_0000,
{
    assert forall|i: u32| i < 5 implies #[trigger] slot(x | (c << (5 * p)), i) == if i == p {
        slot(x, i) | c
    } else {
        slot(x, i)
    } by {
        assert(c < 32 && p < 5 && i < 5 ==> ((x | (c << (5 * p))) >> (5 * i)) & 0x1f == if i == p {
            ((x >> (5 * i)) & 0x1f) | c
        } else {
            (x >> (5 * i)) & 0x1f
        }) by (bit_vector);
    }
    assert(c < 32 && p < 5 && (x >> (5 * p)) & 0x1f == 0 ==> ((x | (c << (5 * p))) >> (5 * p)) & 0x1f
        == c) by (bit_vector);
    assert(c < 32 && p < 5 && x < 0x200_0000 ==> x | (c << (5 * p)) < 0x200_0000) by (bit_vector);
}

} // verus!
