use std::collections::HashSet;

use wordle_entropy::ascii_bit_set::AsciiBitSet;
use wordle_entropy::simd_pattern::{lanes_eq, splat, Simd, SIMD_WIDTH};

/// Small deterministic generator of test inputs.
struct Gen(u64);

impl Gen {
    fn next(&mut self) -> u64 {
        self.0 ^= self.0 << 13;
        self.0 ^= self.0 >> 7;
        self.0 ^= self.0 << 17;
        self.0
    }

    fn below(&mut self, n: u64) -> u64 {
        (self.next() >> 11) % n
    }

    /// A string of the shape `[a-z]{n}`, `[a-z]{m,n}` or `[a-z_]{n}`: that
    /// many characters, each drawn from the class.
    fn sample(&mut self, shape: &str) -> String {
        let (class, count) = shape.split_once('{').unwrap();
        let class: Vec<char> = match class {
            "[a-z]" => ('a'..='z').collect(),
            "[a-z_]" => ('a'..='z').chain(['_']).collect(),
            _ => panic!("unknown class {class}"),
        };
        let count = count.strip_suffix('}').unwrap();
        let (min, max): (usize, usize) = match count.split_once(',') {
            Some((min, max)) => (min.parse().unwrap(), max.parse().unwrap()),
            None => (count.parse().unwrap(), count.parse().unwrap()),
        };
        let len = min + self.below((max - min + 1) as u64) as usize;
        (0..len)
            .map(|_| class[self.below(class.len() as u64) as usize])
            .collect()
    }

    /// Between `min` and `max` letters from the first `span` letters of the
    /// alphabet.
    fn narrow_letters(&mut self, min: usize, max: usize, span: u64) -> String {
        let len = min + self.below((max - min + 1) as u64) as usize;
        (0..len)
            .map(|_| char::from(b'a' + self.below(span) as u8))
            .collect()
    }
}

fn char_set(s: &str) -> HashSet<char> {
    HashSet::from_iter(s.chars())
}

#[test]
fn proptest_is_superset_simd() {
    let mut gen = Gen(0x9e37_79b9_7f4a_7c15);
    for round in 0..2000 {
        // every other round from a few letters only, so that a set often
        // covers the other
        let left: [String; SIMD_WIDTH] = [0; SIMD_WIDTH].map(|_| {
            if round % 2 == 0 {
                gen.sample("[a-z]{0,16}")
            } else {
                gen.narrow_letters(0, 16, 4)
            }
        });
        let right: [String; SIMD_WIDTH] = [0; SIMD_WIDTH].map(|_| {
            if round % 2 == 0 {
                gen.sample("[a-z]{0,16}")
            } else {
                gen.narrow_letters(0, 16, 4)
            }
        });
        let expected: [bool; SIMD_WIDTH] = left
            .iter()
            .zip(right.iter())
            .map(|(left, right)| char_set(left).is_superset(&char_set(right)))
            .collect::<Vec<bool>>()
            .try_into()
            .unwrap();

        let left: Simd = left.map(|l| AsciiBitSet::from_bytes(l.as_bytes()).set);
        let right: Simd = right.map(|r| AsciiBitSet::from_bytes(r.as_bytes()).set);

        let res = AsciiBitSet::is_superset_simd(&left, &right);
        let zero = splat(0);
        assert_eq!(lanes_eq(&res, &zero), expected);
    }
}

#[test]
fn proptest_is_superset() {
    let mut gen = Gen(0x1234_5678_9abc_def1);
    for round in 0..4000 {
        let (left, right) = if round % 2 == 0 {
            (gen.sample("[a-z]{0,16}"), gen.sample("[a-z]{0,16}"))
        } else {
            (gen.narrow_letters(0, 16, 4), gen.narrow_letters(0, 16, 4))
        };
        let l = AsciiBitSet::from_bytes(left.as_bytes());
        let r = AsciiBitSet::from_bytes(right.as_bytes());

        assert_eq!(
            l.is_superset(&r),
            char_set(&left).is_superset(&char_set(&right))
        );
    }
}

#[test]
fn proptest_is_disjoint_simd() {
    let mut gen = Gen(0xdead_beef_cafe_f00d);
    for round in 0..2000 {
        // every other round short, so that two sets often share nothing
        let left: [String; SIMD_WIDTH] = [0; SIMD_WIDTH].map(|_| {
            if round % 2 == 0 {
                gen.sample("[a-z]{0,16}")
            } else {
                gen.sample("[a-z]{0,3}")
            }
        });
        let right: [String; SIMD_WIDTH] = [0; SIMD_WIDTH].map(|_| {
            if round % 2 == 0 {
                gen.sample("[a-z]{0,16}")
            } else {
                gen.sample("[a-z]{0,3}")
            }
        });
        let expected: [bool; SIMD_WIDTH] = left
            .iter()
            .zip(right.iter())
            .map(|(left, right)| char_set(left).is_disjoint(&char_set(right)))
            .collect::<Vec<bool>>()
            .try_into()
            .unwrap();

        let left: Simd = left.map(|l| AsciiBitSet::from_bytes(l.as_bytes()).set);
        let right: Simd = right.map(|r| AsciiBitSet::from_bytes(r.as_bytes()).set);

        let res = AsciiBitSet::is_disjoint_simd(&left, &right);
        let zero = splat(0);
        assert_eq!(lanes_eq(&res, &zero), expected);
    }
}

#[test]
fn proptest_is_disjoint() {
    let mut gen = Gen(0x0bad_5eed_0bad_5eed);
    for round in 0..4000 {
        let (left, right) = if round % 2 == 0 {
            (gen.sample("[a-z]{0,16}"), gen.sample("[a-z]{0,16}"))
        } else {
            (gen.sample("[a-z]{0,3}"), gen.sample("[a-z]{0,3}"))
        };
        let l = AsciiBitSet::from_bytes(left.as_bytes());
        let r = AsciiBitSet::from_bytes(right.as_bytes());

        assert_eq!(
            l.is_disjoint(&r),
            char_set(&left).is_disjoint(&char_set(&right))
        );
    }
}

#[test]
fn from_bytes() {
    let s = AsciiBitSet::from_bytes("abcde".as_bytes());
    assert_eq!(s.set, 0b11111);

    let s = AsciiBitSet::from_bytes("zyxwv".as_bytes());
    assert_eq!(s.set, 0b0011_1110_0000_0000_0000_0000_0000);

    let s = AsciiBitSet::from_bytes("abcdefghijklmnopqrstuvwxyz".as_bytes());
    assert_eq!(s.set, 0b0011_1111_1111_1111_1111_1111_1111);
}

#[test]
fn is_superset() {
    let l = AsciiBitSet::from_bytes("abcde".as_bytes());
    let r = AsciiBitSet::from_bytes("bd".as_bytes());

    assert!(l.is_superset(&r));
    assert!(!r.is_superset(&l));
}

#[test]
fn not_is_superset() {
    let l = AsciiBitSet::from_bytes("abcde".as_bytes());
    let r = AsciiBitSet::from_bytes("abcz".as_bytes());

    assert!(!l.is_superset(&r));
    assert!(!r.is_superset(&l));
}

#[test]
fn empty_set_is_default() {
    let empty = AsciiBitSet::from_bytes(&[]);
    assert_eq!(empty.set, 0);
    assert_eq!(AsciiBitSet::default().set, 0);
    let any = AsciiBitSet::from_bytes(b"query");
    assert!(any.is_superset(&empty));
    assert!(empty.is_superset(&empty));
    assert!(!empty.is_superset(&any));
    assert!(any.is_disjoint(&empty));
}

#[test]
fn set_letter_sets_one_bit() {
    let mut s = AsciiBitSet::default();
    s.set_letter(b'a');
    assert_eq!(s.set, 1);
    s.set_letter(b'z');
    assert_eq!(s.set, 1 | (1 << 25));
    s.set_letter(b'a');
    assert_eq!(s.set, 1 | (1 << 25));
    s.set_letter(b'c');
    assert_eq!(s.set, 0b101 | (1 << 25));
}

#[test]
fn repeated_letters_count_once() {
    let once = AsciiBitSet::from_bytes(b"lo");
    let twice = AsciiBitSet::from_bytes(b"lollo");
    assert_eq!(once.set, twice.set);
}

#[test]
fn disjoint_sets_share_no_letter() {
    let l = AsciiBitSet::from_bytes(b"abc");
    let r = AsciiBitSet::from_bytes(b"xyz");
    let m = AsciiBitSet::from_bytes(b"cx");
    assert!(l.is_disjoint(&r));
    assert!(r.is_disjoint(&l));
    assert!(!l.is_disjoint(&m));
    assert!(!m.is_disjoint(&r));
}

#[test]
fn set_as_text_is_in_alphabet_order() {
    assert_eq!(AsciiBitSet::from_bytes(b"hello").to_text(), "ehlo");
    assert_eq!(AsciiBitSet::default().to_text(), "");
    assert_eq!(
        AsciiBitSet::from_bytes(b"zyxwvutsrqponmlkjihgfedcba").to_text(),
        "abcdefghijklmnopqrstuvwxyz"
    );
}

#[test]
fn lanes_of_set_tests_are_the_scalar_formulas() {
    let a: Simd = [0b1011, 0, 0b1111, 1 << 25];
    let b: Simd = [0b0011, 0b1, 0b10000, 1 << 25];
    assert_eq!(AsciiBitSet::is_superset_simd(&a, &b), [0, 1, 0b10000, 0]);
    assert_eq!(AsciiBitSet::is_disjoint_simd(&a, &b), [0b0011, 0, 0, 1 << 25]);
}
