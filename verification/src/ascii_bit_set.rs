//! A set of lower-case ASCII letters packed into one machine word.

use vstd::prelude::*;
use crate::simd_pattern::{lanes_and, lanes_xor, Simd};

verus! {

/// Whether `l` is one of the bytes `b'a'..=b'z'`.
pub open spec fn is_lowercase(l: u8) -> bool {
    97 <= l <= 122
}

/// Whether bit `k` of `x` is set.
pub open spec fn has_bit(x: u32, k: u32) -> bool {
    (x >> k) & 1 == 1
}

/// Set of lower-case ASCII letters: bit `k` stands for the letter `b'a' + k`.
#[derive(Debug, Copy, Clone)]
pub struct AsciiBitSet {
    pub set: u32,
}

impl View for AsciiBitSet {
    type V = Set<u8>;

    /// The letters that the set holds.
    open spec fn view(&self) -> Set<u8> {
        Set::new(|l: u8| self.contains(l))
    }
}

impl Default for AsciiBitSet {
    /// The empty set.
    fn default() -> (res: Self)
        ensures
            res.set == 0,
            res.wf(),
            res@ == Set::<u8>::empty(),
    {
        let res = AsciiBitSet { set: 0 };
        proof {
            lemma_zero_has_no_bit();
            assert(res@ =~= Set::<u8>::empty());
        }
        res
    }
}

impl AsciiBitSet {
    /// Only the 26 bits that stand for letters may be set.
    pub open spec fn wf(&self) -> bool {
        self.set < 0x400_0000
    }

    /// The letters of the set among the first `n` of the alphabet, in the
    /// order of the alphabet.
    pub open spec fn spelled(&self, n: int) -> Seq<char>
        decreases n,
    {
        if n <= 0 {
            Seq::empty()
        } else if has_bit(self.set, (n - 1) as u32) {
            self.spelled(n - 1).push((n + 96) as char)
        } else {
            self.spelled(n - 1)
        }
    }

    /// Whether the letter `l` is in the set.
    pub open spec fn contains(&self, l: u8) -> bool {
        is_lowercase(l) && has_bit(self.set, (l - 97) as u32)
    }

    /// The set of the letters among `bytes`.
    #[inline]
    pub fn from_bytes(bytes: &[u8]) -> (res: Self)
        requires
            forall|i: int| 0 <= i < bytes@.len() ==> is_lowercase(#[trigger] bytes@[i]),
        ensures
            res.wf(),
            res@ == bytes@.to_set(),
    {
        let mut set = AsciiBitSet::default();
        let mut i: usize = 0;
        while i < bytes.len()
            invariant
                i <= bytes@.len(),
                forall|j: int| 0 <= j < bytes@.len() ==> is_lowercase(#[trigger] bytes@[j]),
                set.wf(),
                set@ == bytes@.take(i as int).to_set(),
            decreases bytes@.len() - i,
        {
            set.set_letter(bytes[i]);
            proof {
                let done = bytes@.take(i as int);
                let next = bytes@.take(i + 1);
                assert(next =~= done.push(bytes@[i as int]));
                assert forall|l: u8| next.to_set().contains(l) == done.to_set().insert(
                    bytes@[i as int],
                ).contains(l) by {
                    if done.contains(l) {
                        let j = choose|j: int| 0 <= j < done.len() && done[j] == l;
                        assert(next[j] == l);
                    }
                    if next.contains(l) {
                        let j = choose|j: int| 0 <= j < next.len() && next[j] == l;
                        if j < i {
                            assert(done[j] == l);
                        }
                    }
                    if l == bytes@[i as int] {
                        assert(next[i as int] == l);
                    }
                }
                assert(next.to_set() =~= done.to_set().insert(bytes@[i as int]));
            }
            i += 1;
        }
        proof {
            assert(bytes@.take(i as int) =~= bytes@);
        }
        set
    }

    /// Adds the letter `l` to the set.
    #[inline]
    pub fn set_letter(&mut self, l: u8)
        requires
            is_lowercase(l),
        ensures
            final(self).set == old(self).set | (1u32 << ((l - 97) as u32)),
            final(self)@ == old(self)@.insert(l),
            old(self).wf() ==> final(self).wf(),
    {
        let k: u8 = l - 97;
        proof {
            lemma_set_bit(self.set, k as u32);
        }
        self.set |= 1u32 << k;
        proof {
            let before = *old(self);
            let after = *self;
            assert(1u32 << k == 1u32 << (k as u32)) by (bit_vector);
            assert forall|m: u8| after@.contains(m) == before@.insert(l).contains(m) by {
                if is_lowercase(m) {
                    assert(((m - 97) as u32 == k as u32) == (m == l));
                }
            }
            assert(after@ =~= before@.insert(l));
        }
    }

    /// The letters of the set as text, from `a` to `z`.
    pub fn to_text(&self) -> (res: String)
        ensures
            res@ == self.spelled(26),
    {
        let mut text = String::new();
        let mut i: u8 = 0;
        while i < 26
            invariant
                i <= 26,
                text@ == self.spelled(i as int),
            decreases 26 - i,
        {
            proof {
                let set = self.set;
                assert((set >> i) & 1 == (set >> (i as u32)) & 1) by (bit_vector);
            }
            if (self.set >> i) & 0b1 == 1 {
                text.push((i + 97) as char);
            }
            i += 1;
        }
        text
    }

    /// Whether every letter of `set` is in `self`.
    #[inline]
    pub fn is_superset(&self, set: &Self) -> (res: bool)
        ensures
            res == ((self.set & set.set) ^ set.set == 0),
            set.wf() ==> res == set@.subset_of(self@),
    {
        proof {
            if set.wf() {
                lemma_superset(*self, *set);
            }
        }
        (self.set & set.set) ^ set.set == 0
    }

    /// Lane by lane, the test of `is_superset`: a lane of the result is
    /// zero exactly when the set in that lane of `a` covers the one in `b`.
    #[inline]
    pub fn is_superset_simd(a: &Simd, b: &Simd) -> (res: Simd)
        ensures
            forall|l: int| 0 <= l < 4 ==> res@[l] == (a@[l] & b@[l]) ^ b@[l],
    {
        lanes_xor(&lanes_and(a, b), b)
    }

    /// Whether `self` and `set` have no letter in common.
    #[inline]
    pub fn is_disjoint(&self, set: &Self) -> (res: bool)
        ensures
            res == (self.set & set.set == 0),
            self.wf() || set.wf() ==> res == self@.disjoint(set@),
    {
        proof {
            if self.wf() || set.wf() {
                lemma_disjoint(*self, *set);
            }
        }
        self.set & set.set == 0
    }

    /// Lane by lane, the test of `is_disjoint`: a lane of the result is
    /// zero exactly when the sets in that lane of `a` and of `b` share no
    /// letter.
    #[inline]
    pub fn is_disjoint_simd(a: &Simd, b: &Simd) -> (res: Simd)
        ensures
            forall|l: int| 0 <= l < 4 ==> res@[l] == a@[l] & b@[l],
    {
        lanes_and(a, b)
    }
}

/// The test on the bits decides whether `a` holds every letter of `b`.
pub proof fn lemma_superset(a: AsciiBitSet, b: AsciiBitSet)
    requires
        b.wf(),
    ensures
        ((a.set & b.set) ^ b.set == 0) == b@.subset_of(a@),
{
    lemma_superset_bits(a.set, b.set);
    lemma_high_bits_clear(b.set);
    if (a.set & b.set) ^ b.set == 0 {
        assert forall|l: u8| b@.contains(l) implies a@.contains(l) by {
            assert(has_bit(b.set, (l - 97) as u32));
        }
    }
    if b@.subset_of(a@) {
        assert forall|k: u32| k < 32 && #[trigger] has_bit(b.set, k) implies has_bit(a.set, k) by {
            let l = (k + 97) as u8;
            assert(b@.contains(l));
            assert(a@.contains(l));
        }
    }
}

/// The test on the bits decides whether `a` and `b` share a letter.
pub proof fn lemma_disjoint(a: AsciiBitSet, b: AsciiBitSet)
    requires
        a.wf() || b.wf(),
    ensures
        (a.set & b.set == 0) == a@.disjoint(b@),
{
    lemma_disjoint_bits(a.set, b.set);
    if a.wf() {
        lemma_high_bits_clear(a.set);
    } else {
        lemma_high_bits_clear(b.set);
    }
    if a.set & b.set == 0 {
        assert forall|l: u8| !(a@.contains(l) && b@.contains(l)) by {
            if is_lowercase(l) {
                assert(!(has_bit(a.set, (l - 97) as u32) && has_bit(b.set, (l - 97) as u32)));
            }
        }
    }
    if a@.disjoint(b@) {
        assert forall|k: u32| k < 32 implies !(#[trigger] has_bit(a.set, k) && #[trigger] has_bit(
            b.set,
            k,
        )) by {
            if k < 26 {
                let l = (k + 97) as u8;
                assert(!(a@.contains(l) && b@.contains(l)));
            }
        }
    }
}

/// Set algebra on the packed form is set algebra on the letters: where `a`
/// and `b` are the sets of the letters of the byte strings `x` and `y`, as
/// `from_bytes` makes them, `is_superset` holds exactly when every letter
/// of `y` occurs in `x`, and `is_disjoint` exactly when no letter occurs in
/// both.
pub proof fn lemma_set_algebra(a: AsciiBitSet, b: AsciiBitSet, x: Seq<u8>, y: Seq<u8>)
    requires
        a.wf(),
        b.wf(),
        a@ == x.to_set(),
        b@ == y.to_set(),
    ensures
        ((a.set & b.set) ^ b.set == 0) <==> (forall|l: u8| y.contains(l) ==> x.contains(l)),
        (a.set & b.set == 0) <==> (forall|l: u8| !(x.contains(l) && y.contains(l))),
{
    lemma_superset(a, b);
    lemma_disjoint(a, b);
    assert(b@.subset_of(a@) <==> (forall|l: u8| y.contains(l) ==> x.contains(l))) by {
        if b@.subset_of(a@) {
            assert forall|l: u8| y.contains(l) implies x.contains(l) by {
                assert(b@.contains(l));
                assert(a@.contains(l));
            }
        }
        if forall|l: u8| y.contains(l) ==> x.contains(l) {
            assert forall|l: u8| b@.contains(l) implies a@.contains(l) by {
                assert(y.contains(l));
            }
        }
    }
    assert(a@.disjoint(b@) <==> (forall|l: u8| !(x.contains(l) && y.contains(l)))) by {
        if a@.disjoint(b@) {
            assert forall|l: u8| !(x.contains(l) && y.contains(l)) by {
                assert(!(a@.contains(l) && b@.contains(l)));
            }
        }
        if forall|l: u8| !(x.contains(l) && y.contains(l)) {
            assert forall|l: u8| !(a@.contains(l) && b@.contains(l)) by {
                assert(!(x.contains(l) && y.contains(l)));
            }
        }
    }
}

/// Two words with the same bits are the same word.
proof fn lemma_same_bits(a: u32, b: u32)
    requires
        forall|k: u32| k < 32 ==> #[trigger] has_bit(a, k) == has_bit(b, k),
    ensures
        a == b,
{
    let x = a ^ b;
    lemma_zero_iff_no_bit(x);
    assert forall|k: u32| k < 32 implies !#[trigger] has_bit(x, k) by {
        assert(k < 32 ==> ((((a ^ b) >> k) & 1 == 1) == (((a >> k) & 1 == 1) != ((b >> k) & 1 == 1))))
            by (bit_vector);
        assert(has_bit(a, k) == has_bit(b, k));
    }
    assert(a ^ b == 0 ==> a == b) by (bit_vector);
}

/// A well-formed set is determined by the letters that it holds.
pub proof fn lemma_view_determines_set(a: AsciiBitSet, b: AsciiBitSet)
    requires
        a.wf(),
        b.wf(),
        a@ == b@,
    ensures
        a == b,
{
    lemma_high_bits_clear(a.set);
    lemma_high_bits_clear(b.set);
    assert forall|k: u32| k < 32 implies #[trigger] has_bit(a.set, k) == has_bit(b.set, k) by {
        if k < 26 {
            let l = (k + 97) as u8;
            assert((l - 97) as u32 == k);
            assert(a@.contains(l) == b@.contains(l));
            assert(a@.contains(l) == a.contains(l));
            assert(b@.contains(l) == b.contains(l));
            assert(a.contains(l) == has_bit(a.set, k));
            assert(b.contains(l) == has_bit(b.set, k));
            assert(has_bit(a.set, k) == has_bit(b.set, k));
        } else {
            assert(!has_bit(a.set, k));
            assert(!has_bit(b.set, k));
        }
    }
    lemma_same_bits(a.set, b.set);
}

/// A word is zero exactly when none of its bits is set.
proof fn lemma_zero_iff_no_bit(x: u32)
    ensures
        (x == 0) <==> (forall|k: u32| k < 32 ==> !#[trigger] has_bit(x, k)),
{
    if x == 0 {
        lemma_zero_has_no_bit();
    } else {
        assert(x != 0 ==> (
            has_bit(x, 0) || has_bit(x, 1) || has_bit(x, 2) || has_bit(x, 3)
            || has_bit(x, 4) || has_bit(x, 5) || has_bit(x, 6) || has_bit(x, 7)
            || has_bit(x, 8) || has_bit(x, 9) || has_bit(x, 10) || has_bit(x, 11)
            || has_bit(x, 12) || has_bit(x, 13) || has_bit(x, 14) || has_bit(x, 15)
            || has_bit(x, 16) || has_bit(x, 17) || has_bit(x, 18) || has_bit(x, 19)
            || has_bit(x, 20) || has_bit(x, 21) || has_bit(x, 22) || has_bit(x, 23)
            || has_bit(x, 24) || has_bit(x, 25) || has_bit(x, 26) || has_bit(x, 27)
            || has_bit(x, 28) || has_bit(x, 29) || has_bit(x, 30) || has_bit(x, 31)
        )) by (bit_vector);
    }
}

/// `b` is covered by `a` exactly when every bit of `b` is a bit of `a`.
proof fn lemma_superset_bits(a: u32, b: u32)
    ensures
        ((a & b) ^ b == 0) <==> (forall|k: u32|
            k < 32 && #[trigger] has_bit(b, k) ==> has_bit(a, k)),
{
    let x = (a & b) ^ b;
    lemma_zero_iff_no_bit(x);
    assert forall|k: u32| k < 32 implies (#[trigger] has_bit(x, k) == (has_bit(b, k) && !has_bit(
        a,
        k,
    ))) by {
        assert(k < 32 ==> (((((a & b) ^ b) >> k) & 1 == 1) == (((b >> k) & 1 == 1) && !((a >> k) & 1
            == 1)))) by (bit_vector);
    }
    if forall|k: u32| k < 32 && #[trigger] has_bit(b, k) ==> has_bit(a, k) {
        assert forall|k: u32| k < 32 implies !#[trigger] has_bit(x, k) by {
            assert(has_bit(x, k) == (has_bit(b, k) && !has_bit(a, k)));
        }
    }
    if x == 0 {
        assert forall|k: u32| k < 32 && #[trigger] has_bit(b, k) implies has_bit(a, k) by {
            assert(!has_bit(x, k));
        }
    }
}

/// `a` and `b` share no bit exactly when their conjunction is zero.
proof fn lemma_disjoint_bits(a: u32, b: u32)
    ensures
        (a & b == 0) <==> (forall|k: u32|
            k < 32 ==> !(#[trigger] has_bit(a, k) && #[trigger] has_bit(b, k))),
{
    let x = a & b;
    lemma_zero_iff_no_bit(x);
    assert forall|k: u32| k < 32 implies (#[trigger] has_bit(x, k) == (has_bit(a, k) && has_bit(
        b,
        k,
    ))) by {
        assert(k < 32 ==> ((((a & b) >> k) & 1 == 1) == (((a >> k) & 1 == 1) && ((b >> k) & 1
            == 1)))) by (bit_vector);
    }
    if forall|k: u32| k < 32 ==> !(#[trigger] has_bit(a, k) && #[trigger] has_bit(b, k)) {
        assert forall|k: u32| k < 32 implies !#[trigger] has_bit(x, k) by {
            assert(has_bit(x, k) == (has_bit(a, k) && has_bit(b, k)));
        }
    }
    if x == 0 {
        assert forall|k: u32| k < 32 implies !(#[trigger] has_bit(a, k) && #[trigger] has_bit(
            b,
            k,
        )) by {
            assert(!has_bit(x, k));
        }
    }
}

/// A well-formed set has none of the six bits above the letters.
proof fn lemma_high_bits_clear(x: u32)
    requires
        x < 0x400_0000,
    ensures
        forall|k: u32| 26 <= k < 32 ==> !#[trigger] has_bit(x, k),
{
    assert forall|k: u32| 26 <= k < 32 implies !#[trigger] has_bit(x, k) by {
        assert(x < 0x400_0000 && 26 <= k < 32 ==> (x >> k) & 1 == 0) by (bit_vector);
    }
}

/// No bit is set in zero.
pub(crate) proof fn lemma_zero_has_no_bit()
    ensures
        forall|k: u32| k < 32 ==> !#[trigger] has_bit(0, k),
{
    assert forall|k: u32| k < 32 implies !#[trigger] has_bit(0, k) by {
        assert(k < 32 ==> (0u32 >> k) & 1 == 0) by (bit_vector);
    }
}

/// Setting bit `k` sets that bit, keeps the others, and stays within the
/// 26 letter bits when `k` is one of them.
proof fn lemma_set_bit(x: u32, k: u32)
    requires
        k < 26,
    ensures
        forall|j: u32| j < 32 ==> (#[trigger] has_bit(x | (1u32 << k), j) == (has_bit(x, j) || j == k)),
        x < 0x400_0000 ==> x | (1u32 << k) < 0x400_0000,
{
    assert forall|j: u32| j < 32 implies (#[trigger] has_bit(x | (1u32 << k), j) == (has_bit(x, j)
        || j == k)) by {
        assert(k < 26 && j < 32 ==> ((((x | (1u32 << k)) >> j) & 1 == 1) == (((x >> j) & 1 == 1) || j
            == k))) by (bit_vector);
    }
    assert(k < 26 && x < 0x400_0000 ==> x | (1u32 << k) < 0x400_0000) by (bit_vector);
}

} // verus!
