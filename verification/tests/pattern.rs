use std::collections::HashSet;

use wordle_entropy::ascii_bit_set::AsciiBitSet;
use wordle_entropy::pattern::{all_patterns, Pattern, PATTERN_COUNT};
use wordle_entropy::word::{wordbytes_from_str, Word};

/// Small deterministic generator of test inputs.
struct Gen(u64);

impl Gen {
    fn next(&mut self) -> u64 {
        self.0 ^= self.0 << 13;
        self.0 ^= self.0 >> 7;
        self.0 ^= self.0 << 17;
        self.0
    }

    fn below(&mut self, n: u64) -> u64 {
        (self.next() >> 11) % n
    }

    /// A string of the shape `[a-z]{n}`, `[a-z]{m,n}` or `[a-z_]{n}`: that
    /// many characters, each drawn from the class.
    fn sample(&mut self, shape: &str) -> String {
        let (class, count) = shape.split_once('{').unwrap();
        let class: Vec<char> = match class {
            "[a-z]" => ('a'..='z').collect(),
            "[a-z_]" => ('a'..='z').chain(['_']).collect(),
            _ => panic!("unknown class {class}"),
        };
        let count = count.strip_suffix('}').unwrap();
        let (min, max): (usize, usize) = match count.split_once(',') {
            Some((min, max)) => (min.parse().unwrap(), max.parse().unwrap()),
            None => (count.parse().unwrap(), count.parse().unwrap()),
        };
        let len = min + self.below((max - min + 1) as u64) as usize;
        (0..len)
            .map(|_| class[self.below(class.len() as u64) as usize])
            .collect()
    }

    /// A letter among the first `span` of the alphabet.
    fn letter(&mut self, span: u64) -> char {
        char::from(b'a' + self.below(span) as u8)
    }

    fn word(&mut self, span: u64) -> String {
        (0..5).map(|_| self.letter(span)).collect()
    }

    /// Five characters, letters or `_`, with `_` at about `blanks` of
    /// `blanks + 1` places and the letter of `word` at some of the others.
    fn pattern_near(&mut self, word: &str, span: u64, blanks: u64) -> String {
        word.chars()
            .map(|c| {
                if self.below(blanks + 1) < blanks {
                    '_'
                } else if self.below(2) == 0 {
                    c
                } else {
                    self.letter(span)
                }
            })
            .collect()
    }

    fn letters(&mut self, min: usize, max: usize, span: u64) -> String {
        let len = min + self.below((max - min + 1) as u64) as usize;
        (0..len).map(|_| self.letter(span)).collect()
    }
}

#[test]
fn proptest_is_matching_pattern() {
    let mut gen = Gen(0x6a09_e667_f3bc_c908);
    let mut matched = 0;
    for round in 0..20000 {
        // every other round any strings of these shapes; in the others
        // strings that are close to the word, so that patterns often match
        let (word, match_word, absent_word, match_letters, absent_letters) = if round % 2 == 0 {
            (
                gen.sample("[a-z]{5}"),
                gen.sample("[a-z_]{5}"),
                gen.sample("[a-z_]{5}"),
                gen.sample("[a-z]{0,5}"),
                gen.sample("[a-z]{0,16}"),
            )
        } else {
            let word = gen.word(6);
            let match_word = gen.pattern_near(&word, 6, 3);
            let absent_word = gen.pattern_near(&word, 6, 6);
            let match_letters = gen.letters(0, 1, 6);
            let absent_letters = gen.letters(0, 1, 26);
            (word, match_word, absent_word, match_letters, absent_letters)
        };

        let w = Word::from_str(&word);
        let mut pattern = Pattern::default();

        for (i, b) in match_word.as_bytes().iter().enumerate() {
            if *b != b'_' {
                pattern.match_word.set_letter(*b, i);
            }
        }

        for (i, b) in absent_word.as_bytes().iter().enumerate() {
            if *b != b'_' {
                pattern.absent_word.set_letter(*b, i);
            }
        }

        pattern.present_letter = AsciiBitSet::from_bytes(match_letters.as_bytes());
        pattern.absent_letter = AsciiBitSet::from_bytes(absent_letters.as_bytes());

        let word_letters: HashSet<char> = HashSet::from_iter(word.chars());
        let mhs: HashSet<char> = HashSet::from_iter(match_letters.chars());
        let ahs: HashSet<char> = HashSet::from_iter(absent_letters.chars());

        let positive_match_word = word
            .chars()
            .zip(match_word.chars())
            .all(|(l, r)| l == r || r == '_');

        let negative_match_word = word
            .chars()
            .zip(absent_word.chars())
            .all(|(l, r)| l != r || r == '_');

        let does_match = positive_match_word
            && negative_match_word
            && word_letters.is_superset(&mhs)
            && word_letters.is_disjoint(&ahs);

        if does_match {
            matched += 1;
        }
        assert_eq!(pattern.matches_word(&w), does_match);
    }
    // the inputs are of both kinds
    assert!(matched > 100);
}

#[test]
fn test_matching_empty_pattern() {
    let word = Word::from_str("hello");
    let pattern = Pattern::default();

    assert!(pattern.matches_word(&word));
}

#[test]
fn test_failing_pattern() {
    let word = Word::from_str("ajaaa");
    let mut pattern = Pattern::default();
    pattern.absent_word.set_letter(b'j', 1);
    pattern.absent_word.set_letter(b'b', 2);

    assert!(!pattern.matches_word(&word));
}

#[test]
fn test_matching_word_pattern() {
    let mut pattern = Pattern::default();
    pattern.match_word.set_letter(b'e', 1);
    pattern.match_word.set_letter(b'l', 3);

    let word = Word::from_str("hello");
    assert!(pattern.matches_word(&word));

    let non_matching_word = Word::from_str("aaaaa");
    assert!(!pattern.matches_word(&non_matching_word));
}

#[test]
fn test_matching_negative_word_pattern() {
    let mut pattern = Pattern::default();
    pattern.absent_word.set_letter(b'a', 1);

    let word = Word::from_str("hello");
    assert!(pattern.matches_word(&word));

    let non_matching_word = Word::from_str("aaaaa");
    assert!(!pattern.matches_word(&non_matching_word));
}

#[test]
fn test_matching_mix_word_pattern() {
    let mut pattern = Pattern::default();
    pattern.match_word.set_letter(b'l', 3);
    pattern.absent_word.set_letter(b'a', 1);

    let word = Word::from_str("hello");
    assert!(pattern.matches_word(&word));

    let non_matching_word = Word::from_str("aaaaa");
    assert!(!pattern.matches_word(&non_matching_word));
}

#[test]
fn test_matching_letters_pattern() {
    let mut pattern = Pattern::default();
    pattern.present_letter.set_letter(b'l');

    let word = Word::from_str("hello");
    assert!(pattern.matches_word(&word));

    let non_matching_word = Word::from_str("aaaaa");
    assert!(!pattern.matches_word(&non_matching_word));
}

#[test]
fn test_matching_negative_letters_pattern() {
    let mut pattern = Pattern::default();
    pattern.absent_letter.set_letter(b'a');

    let word = Word::from_str("hello");
    assert!(pattern.matches_word(&word));

    let non_matching_word = Word::from_str("aaaaa");
    assert!(!pattern.matches_word(&non_matching_word));
}

#[test]
fn test_matching_mix_letters_pattern() {
    let mut pattern = Pattern::default();
    pattern.absent_letter.set_letter(b'a');
    pattern.present_letter.set_letter(b'e');

    let word = Word::from_str("hello");
    assert!(pattern.matches_word(&word));

    let non_matching_word = Word::from_str("aaaaa");
    assert!(!pattern.matches_word(&non_matching_word));
}

#[test]
fn letter_elsewhere_in_the_word() {
    // the guess held `l` at the first place; the word holds it elsewhere
    let mut pattern = Pattern::default();
    pattern.absent_word.set_letter(b'l', 0);
    pattern.present_letter.set_letter(b'l');

    assert!(pattern.matches_word(&Word::from_str("hello")));
    // no `l` at all
    assert!(!pattern.matches_word(&Word::from_str("crane")));
    // `l` at the first place
    assert!(!pattern.matches_word(&Word::from_str("lemon")));
}

#[test]
fn patterns_of_a_guess_by_outcome() {
    let patterns = Pattern::from_bytes(&wordbytes_from_str("sorel"));
    assert_eq!(patterns.len(), PATTERN_COUNT);

    // outcome 0: every letter at its place
    let all_right = patterns[0];
    assert_eq!(all_right.match_word.word, Word::from_str("sorel").fivegram.word);
    assert_eq!(all_right.match_word.letter_mask, 0x1ff_ffff);
    assert_eq!(all_right.present_letter.set, 0);
    assert_eq!(all_right.absent_word.word, 0);
    assert_eq!(all_right.absent_word.letter_mask, 0);
    assert_eq!(all_right.absent_letter.set, 0);

    // outcome 242 = 22222 in base three: no letter is in the word
    let none = patterns[242];
    assert_eq!(none.match_word.word, 0);
    assert_eq!(none.match_word.letter_mask, 0);
    assert_eq!(none.present_letter.set, 0);
    assert_eq!(none.absent_word.word, 0);
    assert_eq!(none.absent_letter.set, AsciiBitSet::from_bytes(b"sorel").set);

    // outcome 1 + 2 * 3 + 0 * 9 + 1 * 27 + 2 * 81 = 196:
    // `s` elsewhere, `o` absent, `r` in place, `e` elsewhere, `l` absent
    let mixed = patterns[196];
    assert_eq!(mixed.match_word.to_text(), "__r__");
    assert_eq!(mixed.absent_word.to_text(), "s__e_");
    assert_eq!(mixed.present_letter.to_text(), "es");
    assert_eq!(mixed.absent_letter.to_text(), "lo");
    assert_eq!(mixed.match_word.word, 18 << 10);
    assert_eq!(mixed.absent_word.word, 19 | (5 << 15));
}

#[test]
fn pattern_of_one_outcome() {
    let bytes = wordbytes_from_str("sorel");
    let patterns = Pattern::from_bytes(&bytes);
    for j in 0..PATTERN_COUNT {
        let p = Pattern::for_outcome(&bytes, j);
        assert_eq!(p.match_word.word, patterns[j].match_word.word);
        assert_eq!(p.match_word.letter_mask, patterns[j].match_word.letter_mask);
        assert_eq!(p.present_letter.set, patterns[j].present_letter.set);
        assert_eq!(p.absent_word.word, patterns[j].absent_word.word);
        assert_eq!(p.absent_word.letter_mask, patterns[j].absent_word.letter_mask);
        assert_eq!(p.absent_letter.set, patterns[j].absent_letter.set);
    }
}

/// What the game answers for each place, written as the number of the
/// outcome.
fn outcome(guess: &str, word: &str) -> usize {
    let g = guess.as_bytes();
    let w = word.as_bytes();
    let mut j = 0;
    let mut pow = 1;
    for i in 0..5 {
        let d = if g[i] == w[i] {
            0
        } else if w.contains(&g[i]) {
            1
        } else {
            2
        };
        j += d * pow;
        pow *= 3;
    }
    j
}

#[test]
fn exactly_the_pattern_of_the_outcome_admits_the_word() {
    let mut gen = Gen(0xbb67_ae85_84ca_a73b);
    for round in 0..300 {
        let span = if round % 3 == 0 { 26 } else { 5 };
        let guess = gen.word(span);
        let word = gen.word(span);
        let patterns = Pattern::from_bytes(&wordbytes_from_str(&guess));
        let w = Word::from_str(&word);
        let hit = outcome(&guess, &word);
        for (j, p) in patterns.iter().enumerate() {
            assert_eq!(p.matches_word(&w), j == hit, "{guess} {word} {j}");
        }
    }
}

#[test]
fn repeated_letter_in_the_guess() {
    // each place is judged on its own: both `e` of the guess are "elsewhere"
    // against a word with one `e` at another place
    let patterns = Pattern::from_bytes(&wordbytes_from_str("eerie"));
    let w = Word::from_str("olden");
    let hit = outcome("eerie", "olden");
    assert_eq!(hit, 1 + 3 + 2 * 9 + 2 * 27 + 81);
    assert!(patterns[hit].matches_word(&w));
    assert_eq!(
        patterns.iter().filter(|p| p.matches_word(&w)).count(),
        1
    );
}

#[test]
fn pattern_as_text() {
    let patterns = Pattern::from_bytes(&wordbytes_from_str("sorel"));
    assert_eq!(
        patterns[196].to_text(),
        "Pattern { match_word: `__r__`, present_letter: `es`, absent_word: `s__e_`, absent_letter: `lo` }"
    );
    assert_eq!(
        Pattern::default().to_text(),
        "Pattern { match_word: `_____`, present_letter: ``, absent_word: `_____`, absent_letter: `` }"
    );
}

#[test]
fn patterns_of_every_word() {
    let words = ["sorel", "hello", "crane"].map(Word::from_str);
    let table = all_patterns(&words);
    assert_eq!(table.len(), 3);
    for (c, text) in ["sorel", "hello", "crane"].iter().enumerate() {
        let expected = Pattern::from_bytes(&wordbytes_from_str(text));
        for j in 0..PATTERN_COUNT {
            assert_eq!(table[c][j].to_text(), expected[j].to_text());
        }
    }
    assert!(all_patterns(&[]).is_empty());
}
