//! Matching on a compute device: how words and patterns are laid out in
//! the device's buffers, how many work groups are sent, and what one unit
//! of work counts.
//!
//! A buffer is a run of 32-bit words. A word record takes three of them
//! (the packed letters, their mask, the letter set); a pattern record takes
//! six (`match_word` and its mask, `present_letter`, `absent_word` and its
//! mask, `absent_letter`). The 243 patterns of a guess follow one another.

use vstd::prelude::*;
use crate::ascii_bit_set::AsciiBitSet;
use crate::fivegram::Fivegram;
use crate::matcher::{
    count_matches, counts_of, lemma_count_matches_empty, lemma_count_matches_push, match_counts,
};
use crate::pattern::{Pattern, Patterns, PATTERN_COUNT};
use crate::word::Word;

verus! {

/// Number of units of work in one work group.
pub const WORKGROUP_SIZE: u32 = 64;

/// Number of 32-bit words that one word record takes.
pub const WORD_STRIDE: usize = 3;

/// Number of 32-bit words that one pattern record takes.
pub const PATTERN_STRIDE: usize = 6;

/// Number of 32-bit words that the 243 patterns of one guess take.
pub const GUESS_STRIDE: usize = 1458;

/// The word that record `k` of the buffer holds.
pub open spec fn word_record(buf: Seq<u32>, k: int) -> Word {
    Word {
        fivegram: Fivegram { word: buf[3 * k], letter_mask: buf[3 * k + 1] },
        letters: AsciiBitSet { set: buf[3 * k + 2] },
    }
}

/// The words that the buffer holds, as many as it has whole records.
pub open spec fn word_records(buf: Seq<u32>) -> Seq<Word> {
    Seq::new((buf.len() / 3) as nat, |k: int| word_record(buf, k))
}

/// The pattern that record `k` of the buffer holds.
pub open spec fn pattern_record(buf: Seq<u32>, k: int) -> Pattern {
    Pattern {
        match_word: Fivegram { word: buf[6 * k], letter_mask: buf[6 * k + 1] },
        present_letter: AsciiBitSet { set: buf[6 * k + 2] },
        absent_word: Fivegram { word: buf[6 * k + 3], letter_mask: buf[6 * k + 4] },
        absent_letter: AsciiBitSet { set: buf[6 * k + 5] },
    }
}

/// The 243 patterns of guess `c` that the buffer holds.
pub open spec fn pattern_records(buf: Seq<u32>, c: int) -> Seq<Pattern> {
    Seq::new(243, |j: int| pattern_record(buf, 243 * c + j))
}

/// The three 32-bit words of the record of `w`.
pub open spec fn word_fields(w: Word) -> Seq<u32> {
    seq![w.fivegram.word, w.fivegram.letter_mask, w.letters.set]
}

/// The six 32-bit words of the record of `p`.
pub open spec fn pattern_fields(p: Pattern) -> Seq<u32> {
    seq![
        p.match_word.word,
        p.match_word.letter_mask,
        p.present_letter.set,
        p.absent_word.word,
        p.absent_word.letter_mask,
        p.absent_letter.set,
    ]
}

/// The buffer that holds the records of `words` one after the other.
pub open spec fn word_layout(words: Seq<Word>) -> Seq<u32> {
    Seq::new(3 * words.len(), |i: int| word_fields(words[i / 3])[i % 3])
}

/// The buffer that holds, for each guess of `table` in turn, the records of
/// its 243 patterns one after the other.
pub open spec fn pattern_layout(table: Seq<Patterns>) -> Seq<u32> {
    Seq::new(1458 * table.len(), |i: int| pattern_fields(table[i / 1458]@[(i % 1458) / 6])[i % 6])
}

/// Byte `i` of `x`, the lowest byte first.
pub open spec fn byte_of(x: u32, i: int) -> u8 {
    ((x >> ((8 * i) as u32)) & 0xff) as u8
}

/// The bytes of `words` in memory where the lowest byte of a word comes
/// first.
pub open spec fn little_endian(words: Seq<u32>) -> Seq<u8> {
    Seq::new(4 * words.len(), |i: int| byte_of(words[i / 4], i % 4))
}

/// The bytes of `words` in memory where the highest byte of a word comes
/// first.
pub open spec fn big_endian(words: Seq<u32>) -> Seq<u8> {
    Seq::new(4 * words.len(), |i: int| byte_of(words[i / 4], 3 - i % 4))
}

/// Whether `bytes` are the bytes of `words` in memory, in one of the two
/// byte orders that a machine can have.
pub open spec fn is_memory_of(bytes: Seq<u8>, words: Seq<u32>) -> bool {
    bytes == little_endian(words) || bytes == big_endian(words)
}

/// `bytemuck::cast_slice` from `u32` to `u8`: the same memory seen as
/// bytes. There are four bytes for each word, in the byte order of the
/// machine. From `u32` to `u8` the cast cannot fail.
#[verifier::external_body]
fn memory_of(buf: &[u32]) -> (res: &[u8])
    ensures
        is_memory_of(res@, buf@),
{
    bytemuck::cast_slice(buf)
}

/// The bytes of the word buffer, as the device takes them.
pub fn word_bytes(words: &[Word]) -> (res: Vec<u8>)
    ensures
        is_memory_of(res@, word_layout(words@)),
{
    let buf = word_buffer(words);
    vstd::slice::slice_to_vec(memory_of(buf.as_slice()))
}

/// The bytes of the pattern buffer, as the device takes them.
pub fn pattern_bytes(patterns: &[Patterns]) -> (res: Vec<u8>)
    ensures
        is_memory_of(res@, pattern_layout(patterns@)),
{
    let buf = pattern_buffer(patterns);
    vstd::slice::slice_to_vec(memory_of(buf.as_slice()))
}

/// The number of guesses whose patterns the buffer holds in full.
pub open spec fn guess_count(buf: Seq<u32>) -> nat {
    buf.len() / 1458
}

/// The buffer of the words, one record after the other in their order.
pub fn word_buffer(words: &[Word]) -> (res: Vec<u32>)
    ensures
        res@ == word_layout(words@),
        word_records(res@) == words@,
{
    let mut buf: Vec<u32> = Vec::new();
    let mut k: usize = 0;
    while k < words.len()
        invariant
            k <= words@.len(),
            buf@.len() == 3 * k,
            forall|i: int| 0 <= i < k ==> word_record(buf@, i) == #[trigger] words@[i],
        decreases words@.len() - k,
    {
        let w = &words[k];
        let ghost before = buf@;
        buf.push(w.fivegram.word);
        buf.push(w.fivegram.letter_mask);
        buf.push(w.letters.set);
        proof {
            assert forall|i: int| 0 <= i < k + 1 implies word_record(buf@, i) == #[trigger] words@[i] by {
                if i < k {
                    assert(word_record(before, i) == words@[i]);
                    assert(buf@[3 * i] == before[3 * i]);
                    assert(buf@[3 * i + 1] == before[3 * i + 1]);
                    assert(buf@[3 * i + 2] == before[3 * i + 2]);
                }
            }
        }
        k += 1;
    }
    proof {
        assert(word_records(buf@) =~= words@);
        assert forall|i: int| 0 <= i < buf@.len() implies buf@[i] == word_layout(words@)[i] by {
            let k = i / 3;
            assert(word_record(buf@, k) == words@[k]);
        }
        assert(buf@ =~= word_layout(words@));
    }
    buf
}

/// Appends the record of `p` to the buffer.
fn push_pattern(buf: &mut Vec<u32>, p: &Pattern)
    ensures
        final(buf)@ == old(buf)@ + seq![
            p.match_word.word,
            p.match_word.letter_mask,
            p.present_letter.set,
            p.absent_word.word,
            p.absent_word.letter_mask,
            p.absent_letter.set,
        ],
{
    let ghost before = buf@;
    buf.push(p.match_word.word);
    buf.push(p.match_word.letter_mask);
    buf.push(p.present_letter.set);
    buf.push(p.absent_word.word);
    buf.push(p.absent_word.letter_mask);
    buf.push(p.absent_letter.set);
    proof {
        assert(buf@ =~= before + seq![
            p.match_word.word,
            p.match_word.letter_mask,
            p.present_letter.set,
            p.absent_word.word,
            p.absent_word.letter_mask,
            p.absent_letter.set,
        ]);
    }
}

/// The buffer of the patterns: for each guess in turn its 243 patterns,
/// one record after the other.
pub fn pattern_buffer(patterns: &[Patterns]) -> (res: Vec<u32>)
    ensures
        res@ == pattern_layout(patterns@),
        guess_count(res@) == patterns@.len(),
        forall|c: int|
            0 <= c < patterns@.len() ==> #[trigger] pattern_records(res@, c) == patterns@[c]@,
{
    let mut buf: Vec<u32> = Vec::new();
    let mut c: usize = 0;
    while c < patterns.len()
        invariant
            c <= patterns@.len(),
            buf@.len() == 1458 * c,
            forall|i: int, j: int|
                0 <= i < c && 0 <= j < 243 ==> pattern_record(buf@, 243 * i + j)
                    == #[trigger] patterns@[i]@[j],
        decreases patterns@.len() - c,
    {
        let guess = &patterns[c];
        let mut j: usize = 0;
        while j < PATTERN_COUNT
            invariant
                j <= 243,
                c < patterns@.len(),
                *guess == patterns@[c as int],
                buf@.len() == 1458 * c + 6 * j,
                forall|i: int, h: int|
                    0 <= i < c && 0 <= h < 243 ==> pattern_record(buf@, 243 * i + h)
                        == #[trigger] patterns@[i]@[h],
                forall|h: int|
                    0 <= h < j ==> pattern_record(buf@, 243 * c + h) == #[trigger] guess@[h],
            decreases 243 - j,
        {
            let ghost before = buf@;
            push_pattern(&mut buf, &guess[j]);
            proof {
                assert forall|k: int| 0 <= k < 243 * c + j implies pattern_record(buf@, k)
                    == pattern_record(before, k) by {
                    assert(buf@[6 * k] == before[6 * k]);
                    assert(buf@[6 * k + 1] == before[6 * k + 1]);
                    assert(buf@[6 * k + 2] == before[6 * k + 2]);
                    assert(buf@[6 * k + 3] == before[6 * k + 3]);
                    assert(buf@[6 * k + 4] == before[6 * k + 4]);
                    assert(buf@[6 * k + 5] == before[6 * k + 5]);
                }
                assert forall|i: int, h: int| 0 <= i < c && 0 <= h < 243 implies pattern_record(
                    buf@,
                    243 * i + h,
                ) == #[trigger] patterns@[i]@[h] by {
                    assert(pattern_record(before, 243 * i + h) == patterns@[i]@[h]);
                }
                assert forall|h: int| 0 <= h < j + 1 implies pattern_record(buf@, 243 * c + h)
                    == #[trigger] guess@[h] by {
                    if h < j {
                        assert(pattern_record(before, 243 * c + h) == guess@[h]);
                    } else {
                        let k = 243 * c + j;
                        assert(buf@[6 * k] == guess@[h].match_word.word);
                        assert(buf@[6 * k + 1] == guess@[h].match_word.letter_mask);
                        assert(buf@[6 * k + 2] == guess@[h].present_letter.set);
                        assert(buf@[6 * k + 3] == guess@[h].absent_word.word);
                        assert(buf@[6 * k + 4] == guess@[h].absent_word.letter_mask);
                        assert(buf@[6 * k + 5] == guess@[h].absent_letter.set);
                    }
                }
            }
            j += 1;
        }
        c += 1;
    }
    proof {
        assert forall|i: int| 0 <= i < patterns@.len() implies #[trigger] pattern_records(buf@, i)
            == patterns@[i]@ by {
            assert forall|h: int| 0 <= h < 243 implies pattern_records(buf@, i)[h]
                == patterns@[i]@[h] by {
                assert(pattern_record(buf@, 243 * i + h) == patterns@[i]@[h]);
            }
            assert(pattern_records(buf@, i) =~= patterns@[i]@);
        }
        assert forall|i: int| 0 <= i < buf@.len() implies buf@[i] == pattern_layout(patterns@)[i] by {
            let g = i / 1458;
            let j = (i % 1458) / 6;
            let r = i % 6;
            assert(i == 6 * (243 * g + j) + r);
            assert(pattern_record(buf@, 243 * g + j) == patterns@[g]@[j]);
        }
        assert(buf@ =~= pattern_layout(patterns@));
    }
    buf
}

/// The word in record `k` of the buffer.
#[inline]
pub fn read_word(buf: &[u32], k: usize) -> (res: Word)
    requires
        3 * k + 2 < buf@.len(),
    ensures
        res == word_record(buf@, k as int),
{
    let len: usize = buf.len();
    assert(3 * k + 2 < len);
    let base: usize = k * WORD_STRIDE;
    Word {
        fivegram: Fivegram { word: buf[base], letter_mask: buf[base + 1] },
        letters: AsciiBitSet { set: buf[base + 2] },
    }
}

/// The pattern in record `k` of the buffer.
#[inline]
pub fn read_pattern(buf: &[u32], k: usize) -> (res: Pattern)
    requires
        6 * k + 5 < buf@.len(),
    ensures
        res == pattern_record(buf@, k as int),
{
    let len: usize = buf.len();
    assert(6 * k + 5 < len);
    let base: usize = k * PATTERN_STRIDE;
    Pattern {
        match_word: Fivegram { word: buf[base], letter_mask: buf[base + 1] },
        present_letter: AsciiBitSet { set: buf[base + 2] },
        absent_word: Fivegram { word: buf[base + 3], letter_mask: buf[base + 4] },
        absent_letter: AsciiBitSet { set: buf[base + 5] },
    }
}

/// What the unit of work `id` counts: for each of the 243 patterns of
/// guess `id`, the number of words in the word buffer that it admits.
///
/// The work groups are whole, so there may be more units than guesses: a
/// unit whose guess the pattern buffer does not hold in full counts
/// nothing.
pub fn unit_counts(id: usize, words: &[u32], patterns: &[u32]) -> (res: Option<[usize; 243]>)
    ensures
        res is Some <==> id < guess_count(patterns@),
        res matches Some(counts) ==> counts_of(counts@) == match_counts(
            pattern_records(patterns@, id as int),
            word_records(words@),
        ),
{
    if id >= patterns.len() / GUESS_STRIDE {
        return None;
    }
    let word_count: usize = words.len() / WORD_STRIDE;
    let first: usize = id * PATTERN_COUNT;
    let ghost targets = word_records(words@);
    let ghost guess = pattern_records(patterns@, id as int);
    let mut counts: [usize; 243] = [0usize;243];
    let mut j: usize = 0;
    while j < PATTERN_COUNT
        invariant
            j <= 243,
            first == 243 * id,
            1458 * (id + 1) <= patterns@.len() <= usize::MAX,
            word_count == words@.len() / 3,
            targets == word_records(words@),
            guess == pattern_records(patterns@, id as int),
            forall|h: int| 0 <= h < j ==> counts@[h] == count_matches(guess[h], targets),
        decreases 243 - j,
    {
        let pattern = read_pattern(patterns, first + j);
        let mut count: usize = 0;
        let mut k: usize = 0;
        proof {
            lemma_count_matches_empty(pattern);
            assert(targets.take(0) =~= Seq::<Word>::empty());
        }
        while k < word_count
            invariant
                k <= word_count,
                word_count == words@.len() / 3,
                targets == word_records(words@),
                count <= k,
                count == count_matches(pattern, targets.take(k as int)),
            decreases word_count - k,
        {
            let word = read_word(words, k);
            proof {
                assert(word == targets[k as int]);
                lemma_count_matches_push(pattern, targets.take(k as int), word);
                assert(targets.take(k + 1) =~= targets.take(k as int).push(word));
            }
            if pattern.matches_word(&word) {
                count += 1;
            }
            k += 1;
        }
        proof {
            assert(targets.take(k as int) =~= targets);
            assert(pattern == guess[j as int]);
        }
        counts[j] = count;
        j += 1;
    }
    proof {
        assert(counts_of(counts@) =~= match_counts(guess, targets));
    }
    Some(counts)
}

/// The number of work groups of `group_size` units that hold at least
/// `units` units: `units` divided by `group_size`, rounded up.
pub fn workgroup_count(units: u32, group_size: u32) -> (res: u32)
    requires
        group_size > 0,
    ensures
        res == (units + group_size - 1) / (group_size as int),
        res * group_size >= units,
        res > 0 ==> (res - 1) * group_size < units,
{
    let whole: u32 = units / group_size;
    let rest: u32 = units % group_size;
    proof {
        lemma_round_up(units as int, group_size as int);
    }
    if rest == 0 {
        whole
    } else {
        whole + 1
    }
}

/// Division that rounds up, in terms of the division that rounds down.
proof fn lemma_round_up(n: int, d: int)
    requires
        0 <= n,
        0 < d,
    ensures
        (n + d - 1) / d == if n % d == 0 {
            n / d
        } else {
            n / d + 1
        },
        ((n + d - 1) / d) * d >= n,
        ((n + d - 1) / d - 1) * d < n,
        n / d <= n,
        n % d != 0 ==> n / d < n,
{
    let q = n / d;
    let r = n % d;
    vstd::arithmetic::div_mod::lemma_fundamental_div_mod(n, d);
    vstd::arithmetic::div_mod::lemma_mod_bound(n, d);
    assert(n == d * q + r);
    assert(0 <= q) by (nonlinear_arith)
        requires
            n == d * q + r,
            0 <= r < d,
            0 <= n,
            0 < d,
    ;
    if r == 0 {
        assert(n + d - 1 == q * d + (d - 1)) by (nonlinear_arith)
            requires
                n == d * q,
        ;
        vstd::arithmetic::div_mod::lemma_fundamental_div_mod_converse(n + d - 1, d, q, d - 1);
        assert(q * d >= n) by (nonlinear_arith)
            requires
                n == d * q,
        ;
        assert((q - 1) * d < n) by (nonlinear_arith)
            requires
                n == d * q,
                0 < d,
        ;
    } else {
        assert(n + d - 1 == (q + 1) * d + (r - 1)) by (nonlinear_arith)
            requires
                n == d * q + r,
        ;
        vstd::arithmetic::div_mod::lemma_fundamental_div_mod_converse(n + d - 1, d, q + 1, r - 1);
        assert((q + 1) * d >= n) by (nonlinear_arith)
            requires
                n == d * q + r,
                r < d,
        ;
        assert(q * d < n) by (nonlinear_arith)
            requires
                n == d * q + r,
                0 < r,
        ;
    }
    assert(q <= n && (r != 0 ==> q < n)) by (nonlinear_arith)
        requires
            n == d * q + r,
            0 <= r < d,
            0 <= q,
            0 < d,
    ;
}

} // verus!
