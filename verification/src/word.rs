//! Dictionary words: their raw bytes and their packed form.

use vstd::prelude::*;
use vstd::string::*;
use crate::ascii_bit_set::{is_lowercase, AsciiBitSet};
use crate::fivegram::{slot, Fivegram, FIVEGRAM};

verus! {

/// The five letters of a word as bytes.
pub type WordBytes = [u8; 5];

/// Whether `s` is made of exactly five lower-case ASCII letters.
pub open spec fn is_word(s: Seq<char>) -> bool {
    s.len() == 5 && forall|i: int| 0 <= i < s.len() ==> 'a' <= #[trigger] s[i] <= 'z'
}

/// Whether every byte of `bytes` is a lower-case ASCII letter.
pub open spec fn all_lowercase(bytes: Seq<u8>) -> bool {
    forall|i: int| 0 <= i < bytes.len() ==> is_lowercase(#[trigger] bytes[i])
}

/// The bytes of a five-letter word.
pub fn wordbytes_from_str(s: &str) -> (res: WordBytes)
    requires
        is_word(s@),
    ensures
        all_lowercase(res@),
        forall|i: int| 0 <= i < 5 ==> res@[i] == s@[i] as u8,
{
    proof {
        assert(is_ascii(s)) by {
            assert forall|i: int| 0 <= i < s@.len() implies '\0' <= #[trigger] s@[i] <= '\u{7f}' by {
                assert('a' <= s@[i] <= 'z');
            }
        }
        is_ascii_spec_bytes(s);
    }
    let src = s.as_bytes();
    let mut bytes: WordBytes = [0u8;5];
    let mut i: usize = 0;
    while i < FIVEGRAM
        invariant
            i <= 5,
            src@.len() == 5,
            forall|j: int| 0 <= j < i ==> bytes@[j] == src@[j],
        decreases 5 - i,
    {
        bytes[i] = src[i];
        i += 1;
    }
    proof {
        assert forall|j: int| 0 <= j < 5 implies is_lowercase(#[trigger] bytes@[j]) by {
            assert('a' <= s@[j] <= 'z');
            assert(bytes@[j] == s@[j] as u8);
        }
    }
    bytes
}

/// The text that the five bytes spell, each byte taken as one character.
pub fn wordbytes_to_str(wb: &WordBytes) -> (res: String)
    ensures
        res@ == Seq::new(5, |i: int| wb@[i] as char),
{
    let mut res = String::new();
    let mut i: usize = 0;
    while i < FIVEGRAM
        invariant
            i <= 5,
            res@ == Seq::new(i as nat, |j: int| wb@[j] as char),
        decreases 5 - i,
    {
        res.push(wb[i] as char);
        i += 1;
        assert(res@ =~= Seq::new(i as nat, |j: int| wb@[j] as char));
    }
    res
}

/// A dictionary word: its five letters packed slot by slot, and the set of
/// its letters.
#[derive(Debug, Copy, Clone)]
pub struct Word {
    pub fivegram: Fivegram,
    pub letters: AsciiBitSet,
}

impl View for Word {
    type V = Seq<u8>;

    /// The five letters of the word.
    open spec fn view(&self) -> Seq<u8> {
        Seq::new(5, |i: int| (slot(self.fivegram.word, i as u32) + 96) as u8)
    }
}

impl Default for Word {
    /// The record with no slot constrained and no letter: it stands for no
    /// word.
    fn default() -> (res: Self)
        ensures
            res.fivegram == (Fivegram { word: 0, letter_mask: 0 }),
            res.letters == (AsciiBitSet { set: 0 }),
    {
        Word { fivegram: Fivegram::default(), letters: AsciiBitSet::default() }
    }
}

impl Word {
    /// All five slots hold a letter, and `letters` is the set of them.
    pub open spec fn wf(&self) -> bool {
        &&& self.fivegram.wf()
        &&& self.fivegram.is_full()
        &&& self.letters.wf()
        &&& self.letters@ == self@.to_set()
    }

    /// The record of a five-letter word.
    pub fn from_str(s: &str) -> (res: Word)
        requires
            is_word(s@),
        ensures
            res.wf(),
            forall|i: int| 0 <= i < 5 ==> res@[i] == s@[i] as u8,
    {
        let bytes = wordbytes_from_str(s);
        Word::from_wordbytes(&bytes)
    }

    /// The record of `s` if it is a word, that is five lower-case ASCII
    /// letters, and nothing otherwise.
    pub fn parse(s: &str) -> (res: Option<Word>)
        ensures
            res is Some <==> is_word(s@),
            res matches Some(word) ==> word.wf() && forall|i: int|
                0 <= i < 5 ==> word@[i] == s@[i] as u8,
    {
        proof {
            is_ascii_spec_bytes(s);
            if is_word(s@) {
                assert(is_ascii(s)) by {
                    assert forall|i: int| 0 <= i < s@.len() implies '\0' <= #[trigger] s@[i]
                        <= '\u{7f}' by {
                        assert('a' <= s@[i] <= 'z');
                    }
                }
            }
        }
        let src = s.as_bytes();
        if src.len() != FIVEGRAM || !s.is_ascii() {
            return None;
        }
        let mut i: usize = 0;
        while i < FIVEGRAM
            invariant
                i <= 5,
                src@.len() == 5,
                s@.len() == 5,
                is_ascii(s),
                forall|j: int| 0 <= j < 5 ==> src@[j] == s@[j] as u8,
                forall|j: int| 0 <= j < i ==> 'a' <= #[trigger] s@[j] <= 'z',
            decreases 5 - i,
        {
            let b = src[i];
            proof {
                assert('\0' <= s@[i as int] <= '\u{7f}');
            }
            if b < 97 || b > 122 {
                proof {
                    assert(!('a' <= s@[i as int] <= 'z'));
                }
                return None;
            }
            i += 1;
        }
        Some(Word::from_str(s))
    }

    /// Whether the record is well formed, that is, stands for a word.
    pub fn is_valid(&self) -> (res: bool)
        ensures
            res == self.wf(),
    {
        let bytes = self.bytes();
        let mut lowercase = true;
        let mut i: usize = 0;
        while i < FIVEGRAM
            invariant
                i <= 5,
                lowercase == all_lowercase(bytes@.take(i as int)),
            decreases 5 - i,
        {
            proof {
                let done = bytes@.take(i as int);
                let next = bytes@.take(i + 1);
                assert(next =~= done.push(bytes@[i as int]));
                if all_lowercase(next) {
                    assert forall|j: int| 0 <= j < done.len() implies is_lowercase(
                        #[trigger] done[j],
                    ) by {
                        assert(next[j] == done[j]);
                    }
                    assert(is_lowercase(next[i as int]));
                }
            }
            if bytes[i] < 97 || bytes[i] > 122 {
                lowercase = false;
            }
            i += 1;
        }
        proof {
            assert(bytes@.take(5) =~= bytes@);
            lemma_full_mask(self.fivegram.letter_mask);
            if self.wf() {
                lemma_word_letters(*self);
            }
        }
        if !lowercase || self.fivegram.letter_mask != 0x1ff_ffff || self.fivegram.word
            >= 0x200_0000 {
            proof {
                if self.wf() {
                    assert forall|j: u32| j < 5 implies slot(self.fivegram.letter_mask, j)
                        == 0x1f by {
                        assert(self.fivegram.is_set(j as int));
                    }
                }
            }
            return false;
        }
        let packed = Word::from_wordbytes(&bytes);
        proof {
            // the letters are those of a word, so the slots are as they must be
            assert forall|j: u32| j < 5 implies 1 <= #[trigger] slot(self.fivegram.word, j)
                <= 26 by {
                assert(is_lowercase(bytes@[j as int]));
                assert(bytes@[j as int] == self@[j as int]);
                lemma_slot_bound(self.fivegram.word, j);
            }
            assert(self.fivegram.wf());
            assert(self.fivegram.is_full());
            if self.wf() {
                lemma_view_determines_word(*self, packed);
            }
            if self.letters.set == packed.letters.set {
                assert(self.letters == packed.letters);
            }
        }
        self.letters.set == packed.letters.set
    }

    /// The five letters of the word.
    pub fn bytes(&self) -> (res: WordBytes)
        ensures
            res@ == self@,
    {
        let mut bytes: WordBytes = [0u8;5];
        let mut i: usize = 0;
        while i < FIVEGRAM
            invariant
                i <= 5,
                forall|j: int| 0 <= j < i ==> bytes@[j] == self@[j],
            decreases 5 - i,
        {
            let shift: u32 = (i * FIVEGRAM) as u32;
            let word: u32 = self.fivegram.word;
            let code: u32 = (word >> shift) & 0b11111;
            proof {
                assert((word >> shift) & 0x1f <= 0x1f) by (bit_vector);
                assert(code == slot(word, i as u32));
            }
            bytes[i] = (code + 96) as u8;
            i += 1;
        }
        proof {
            assert(bytes@ =~= self@);
        }
        bytes
    }

    /// The word as text.
    pub fn to_str(&self) -> (res: String)
        ensures
            res@ == Seq::new(5, |i: int| self@[i] as char),
    {
        let bytes = self.bytes();
        wordbytes_to_str(&bytes)
    }

    /// The record of the word that the five letters spell.
    pub fn from_wordbytes(wb: &WordBytes) -> (res: Word)
        requires
            all_lowercase(wb@),
        ensures
            res.wf(),
            res@ == wb@,
    {
        let res = Word {
            fivegram: Fivegram::from_bytes(wb.as_slice()),
            letters: AsciiBitSet::from_bytes(wb.as_slice()),
        };
        proof {
            assert forall|i: int| 0 <= i < 5 implies res@[i] == wb@[i] by {
                assert(res.fivegram@[i] == Some(wb@[i]));
                assert(res.fivegram.letter_at(i) == Some(wb@[i]));
            }
            assert(res@ =~= wb@);
            assert forall|i: int| 0 <= i < 5 implies res.fivegram.is_set(i) by {
                assert(res.fivegram@[i] == Some(wb@[i]));
            }
        }
        res
    }
}

/// A slot holds five bits.
proof fn lemma_slot_bound(x: u32, i: u32)
    requires
        i < 5,
    ensures
        slot(x, i) <= 0x1f,
{
    assert(i < 5 ==> (x >> (5 * i)) & 0x1f <= 0x1f) by (bit_vector);
}

/// The mask with all five slots set, and no other.
proof fn lemma_full_mask(m: u32)
    ensures
        m == 0x1ff_ffff ==> forall|i: u32| i < 5 ==> #[trigger] slot(m, i) == 0x1f,
        m < 0x200_0000 && (forall|i: u32| i < 5 ==> #[trigger] slot(m, i) == 0x1f) ==> m
            == 0x1ff_ffff,
{
    assert forall|i: u32| i < 5 && m == 0x1ff_ffff implies #[trigger] slot(m, i) == 0x1f by {
        assert(i < 5 && m == 0x1ff_ffff ==> (m >> (5 * i)) & 0x1f == 0x1f) by (bit_vector);
    }
    if m < 0x200_0000 && (forall|i: u32| i < 5 ==> #[trigger] slot(m, i) == 0x1f) {
        assert(slot(m, 0) == 0x1f && slot(m, 1) == 0x1f && slot(m, 2) == 0x1f && slot(m, 3) == 0x1f
            && slot(m, 4) == 0x1f);
        assert(m < 0x200_0000 && (m >> (5 * 0u32)) & 0x1f == 0x1f && (m >> (5 * 1u32)) & 0x1f == 0x1f
            && (m >> (5 * 2u32)) & 0x1f == 0x1f && (m >> (5 * 3u32)) & 0x1f == 0x1f && (m >> (5
            * 4u32)) & 0x1f == 0x1f ==> m == 0x1ff_ffff) by (bit_vector);
    }
}

/// A full fivegram holds in each slot the letter of its word.
pub proof fn lemma_word_letters(word: Word)
    requires
        word.wf(),
    ensures
        forall|i: int| 0 <= i < 5 ==> #[trigger] word.fivegram.letter_at(i) == Some(word@[i]),
        all_lowercase(word@),
{
    assert forall|i: int| 0 <= i < 5 implies #[trigger] word.fivegram.letter_at(i) == Some(
        word@[i],
    ) by {
        assert(word.fivegram.is_set(i));
    }
    assert forall|i: int| 0 <= i < 5 implies is_lowercase(#[trigger] word@[i]) by {
        assert(word.fivegram.is_set(i));
        assert(slot(word.fivegram.letter_mask, i as u32) == 0x1f);
    }
}

/// A word has one record: two well-formed records with the same letters
/// are the same record. So packing the bytes of a record gives the record
/// back.
pub proof fn lemma_view_determines_word(a: Word, b: Word)
    requires
        a.wf(),
        b.wf(),
        a@ == b@,
    ensures
        a == b,
{
    lemma_word_letters(a);
    lemma_word_letters(b);
    assert forall|i: int| 0 <= i < 5 implies a.fivegram@[i] == b.fivegram@[i] by {
        assert(a.fivegram.letter_at(i) == Some(a@[i]));
        assert(b.fivegram.letter_at(i) == Some(b@[i]));
    }
    assert(a.fivegram@ =~= b.fivegram@);
    crate::fivegram::lemma_view_determines_fivegram(a.fivegram, b.fivegram);
    crate::ascii_bit_set::lemma_view_determines_set(a.letters, b.letters);
}

} // verus!
