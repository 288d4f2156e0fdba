use wordle_entropy::pattern::Pattern;
use wordle_entropy::simd_pattern::{
    all_simd_patterns, freq_sub, lanes_and, lanes_eq, lanes_not, lanes_or, lanes_shr, lanes_xor,
    mask_and, mask_not, mask_or, mask_to_int, splat, Simd, SimdPattern, SIMD_PATTERN_COUNT,
    SIMD_WIDTH,
};
use wordle_entropy::word::{wordbytes_from_str, Word};

/// Small deterministic generator of test inputs.
struct Gen(u64);

impl Gen {
    fn next(&mut self) -> u64 {
        self.0 ^= self.0 << 13;
        self.0 ^= self.0 >> 7;
        self.0 ^= self.0 << 17;
        self.0
    }

    fn below(&mut self, n: u64) -> u64 {
        (self.next() >> 11) % n
    }

    /// A string of the shape `[a-z]{n}`, `[a-z]{m,n}` or `[a-z_]{n}`: that
    /// many characters, each drawn from the class.
    fn sample(&mut self, shape: &str) -> String {
        let (class, count) = shape.split_once('{').unwrap();
        let class: Vec<char> = match class {
            "[a-z]" => ('a'..='z').collect(),
            "[a-z_]" => ('a'..='z').chain(['_']).collect(),
            _ => panic!("unknown class {class}"),
        };
        let count = count.strip_suffix('}').unwrap();
        let (min, max): (usize, usize) = match count.split_once(',') {
            Some((min, max)) => (min.parse().unwrap(), max.parse().unwrap()),
            None => (count.parse().unwrap(), count.parse().unwrap()),
        };
        let len = min + self.below((max - min + 1) as u64) as usize;
        (0..len)
            .map(|_| class[self.below(class.len() as u64) as usize])
            .collect()
    }

    fn word(&mut self, span: u64) -> String {
        (0..5)
            .map(|_| char::from(b'a' + self.below(span) as u8))
            .collect()
    }
}

#[test]
fn simd_logical_ops() {
    let zero = splat(0);

    let x: Simd = [1, 0, 2, 3];
    let logic_x = lanes_eq(&x, &zero);

    assert_eq!(logic_x, [false, true, false, false]);
    assert_eq!(mask_to_int(&logic_x), [0, -1, 0, 0]);

    let y: Simd = [0, 10, 0, 20];
    let logic_y = lanes_eq(&y, &zero);

    assert_eq!(logic_y, [true, false, true, false]);
    assert_eq!(mask_to_int(&logic_y), [-1, 0, -1, 0]);

    let logic_xy = mask_or(&logic_x, &logic_y);
    assert_eq!(logic_xy, [true, true, true, false]);
    assert_eq!(mask_to_int(&logic_xy), [-1, -1, -1, 0]);
}

// The scalar patterns are the reference
#[test]
fn proptest_single_pattern_matches_word() {
    let mut gen = Gen(0x3c6e_f372_fe94_f82b);
    for round in 0..3000 {
        // every other round from three letters only, so that the words
        // have letters in common
        let (pattern_word, match_word) = if round % 2 == 0 {
            (gen.sample("[a-z]{5}"), gen.sample("[a-z]{5}"))
        } else {
            (gen.word(3), gen.word(3))
        };
        let patterns = Pattern::from_bytes(&wordbytes_from_str(&pattern_word));
        let simd_patterns = SimdPattern::from_patterns(&patterns);
        let word = Word::from_str(&match_word);

        let cpu_match: Vec<bool> = patterns[0..SIMD_WIDTH]
            .iter()
            .map(|p| p.matches_word(&word))
            .collect();
        let simd_match = simd_patterns.first().unwrap().matches_word(&word);

        assert_eq!(
            cpu_match,
            simd_match,
            "CPU Patterns: [{}, {}, {}, {}], SIMD Pattern: {:?}",
            patterns[0].to_text(),
            patterns[1].to_text(),
            patterns[2].to_text(),
            patterns[3].to_text(),
            simd_patterns.first().unwrap()
        );
    }
}

#[test]
fn every_lane_matches_as_its_pattern() {
    let mut gen = Gen(0xa54f_f53a_5f1d_36f1);
    for round in 0..200 {
        let span = if round % 2 == 0 { 26 } else { 4 };
        let guess = gen.word(span);
        let target = gen.word(span);
        let patterns = Pattern::from_bytes(&wordbytes_from_str(&guess));
        let groups = SimdPattern::from_patterns(&patterns);
        let word = Word::from_str(&target);
        for (g, group) in groups.iter().enumerate() {
            let mask = group.matches_word(&word);
            for l in 0..SIMD_WIDTH {
                let j = g * SIMD_WIDTH + l;
                if j < patterns.len() {
                    assert_eq!(mask[l], patterns[j].matches_word(&word));
                } else {
                    // the unused lane constrains nothing
                    assert!(mask[l]);
                }
            }
        }
    }
}

#[test]
fn groups_hold_the_patterns_lane_by_lane() {
    let patterns = Pattern::from_bytes(&wordbytes_from_str("sorel"));
    let groups = SimdPattern::from_patterns(&patterns);
    assert_eq!(groups.len(), SIMD_PATTERN_COUNT);
    assert_eq!(SIMD_PATTERN_COUNT, 61);
    for (j, p) in patterns.iter().enumerate() {
        let group = &groups[j / 4];
        let l = j % 4;
        assert_eq!(group.match_word[l], p.match_word.word);
        assert_eq!(group.match_word_mask[l], p.match_word.letter_mask);
        assert_eq!(group.present_letter[l], p.present_letter.set);
        assert_eq!(group.absent_word[l], p.absent_word.word);
        assert_eq!(group.absent_word_mask[l], p.absent_word.letter_mask);
        assert_eq!(group.absent_letter[l], p.absent_letter.set);
    }
    let last = &groups[60];
    assert_eq!(last.match_word[3], 0);
    assert_eq!(last.match_word_mask[3], 0);
    assert_eq!(last.present_letter[3], 0);
    assert_eq!(last.absent_word[3], 0);
    assert_eq!(last.absent_word_mask[3], 0);
    assert_eq!(last.absent_letter[3], 0);
}

#[test]
fn groups_of_every_guess() {
    let table = [
        Pattern::from_bytes(&wordbytes_from_str("sorel")),
        Pattern::from_bytes(&wordbytes_from_str("hello")),
    ];
    let groups = all_simd_patterns(&table);
    assert_eq!(groups.len(), 2);
    for c in 0..2 {
        let expected = SimdPattern::from_patterns(&table[c]);
        for g in 0..SIMD_PATTERN_COUNT {
            assert_eq!(groups[c][g].match_word, expected[g].match_word);
            assert_eq!(groups[c][g].absent_letter, expected[g].absent_letter);
        }
    }
    assert!(all_simd_patterns(&[]).is_empty());
}

#[test]
fn lane_operations() {
    let a: Simd = [0b1100, 0, u32::MAX, 0x8000_0001];
    let b: Simd = [0b1010, 7, 1, 0x8000_0000];
    assert_eq!(splat(9), [9, 9, 9, 9]);
    assert_eq!(lanes_and(&a, &b), [0b1000, 0, 1, 0x8000_0000]);
    assert_eq!(lanes_or(&a, &b), [0b1110, 7, u32::MAX, 0x8000_0001]);
    assert_eq!(lanes_xor(&a, &b), [0b0110, 7, u32::MAX - 1, 1]);
    assert_eq!(lanes_not(&a), [!0b1100, u32::MAX, 0, 0x7fff_fffe]);
    assert_eq!(lanes_shr(&a, 2), [0b11, 0, u32::MAX >> 2, 0x2000_0000]);
    assert_eq!(lanes_shr(&a, 0), a);
    assert_eq!(lanes_eq(&a, &[0b1100, 1, u32::MAX, 0]), [true, false, true, false]);
    let m = [true, true, false, false];
    let n = [true, false, true, false];
    assert_eq!(mask_and(&m, &n), [true, false, false, false]);
    assert_eq!(mask_or(&m, &n), [true, true, true, false]);
    assert_eq!(mask_not(&m), [false, false, true, true]);
    assert_eq!(mask_to_int(&m), [-1, -1, 0, 0]);
}

#[test]
fn counters_wrap_around() {
    assert_eq!(freq_sub(&[0, 5, -3, 7], &[-1, 0, -1, 7]), [1, 5, -2, 0]);
    assert_eq!(
        freq_sub(&[i32::MAX, i32::MIN, 0, -1], &[-1, 1, i32::MIN, i32::MAX]),
        [i32::MIN, i32::MAX, i32::MIN, i32::MIN]
    );
}

#[test]
fn default_group_constrains_nothing() {
    let group = SimdPattern::default();
    assert_eq!(group.match_word, [0; 4]);
    assert_eq!(group.match_word_mask, [0; 4]);
    assert_eq!(group.absent_word, [0; 4]);
    assert_eq!(group.absent_word_mask, [0; 4]);
    assert_eq!(group.present_letter, [0; 4]);
    assert_eq!(group.absent_letter, [0; 4]);
    assert_eq!(group.matches_word(&Word::from_str("hello")), [true; 4]);
}
