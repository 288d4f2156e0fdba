use wordle_entropy::ranker::top_k_indices;

/// Small deterministic generator of test inputs.
struct Gen(u64);

impl Gen {
    fn next(&mut self) -> u64 {
        self.0 ^= self.0 << 13;
        self.0 ^= self.0 >> 7;
        self.0 ^= self.0 << 17;
        self.0
    }

    fn below(&mut self, n: u64) -> u64 {
        (self.next() >> 11) % n
    }
}

/// All indices, sorted by falling key; equal keys keep their order.
fn ranking(keys: &[u32]) -> Vec<usize> {
    let mut order: Vec<usize> = (0..keys.len()).collect();
    order.sort_by(|&a, &b| keys[b].cmp(&keys[a]));
    order
}

#[test]
fn largest_first() {
    assert_eq!(top_k_indices(&[3, 9, 1, 7], 2), vec![1, 3]);
    assert_eq!(top_k_indices(&[3, 9, 1, 7], 4), vec![1, 3, 0, 2]);
    assert_eq!(top_k_indices(&[3, 9, 1, 7], 1), vec![1]);
}

#[test]
fn ties_go_to_the_lower_index() {
    assert_eq!(top_k_indices(&[5, 5, 5], 2), vec![0, 1]);
    assert_eq!(top_k_indices(&[1, 7, 7, 3, 7], 2), vec![1, 2]);
    assert_eq!(top_k_indices(&[1, 7, 7, 3, 7], 4), vec![1, 2, 4, 3]);
    assert_eq!(top_k_indices(&[0, 0, 0, 0], 3), vec![0, 1, 2]);
}

#[test]
fn fewer_keys_than_asked_for() {
    assert_eq!(top_k_indices(&[2, 4], 10), vec![1, 0]);
    assert_eq!(top_k_indices(&[], 10), Vec::<usize>::new());
    assert_eq!(top_k_indices(&[8], 1), vec![0]);
}

#[test]
fn nothing_asked_for() {
    assert_eq!(top_k_indices(&[2, 4, 6], 0), Vec::<usize>::new());
    assert_eq!(top_k_indices(&[], 0), Vec::<usize>::new());
}

#[test]
fn rising_and_falling_keys() {
    let rising: Vec<u32> = (0..100).collect();
    assert_eq!(top_k_indices(&rising, 3), vec![99, 98, 97]);
    let falling: Vec<u32> = (0..100).rev().collect();
    assert_eq!(top_k_indices(&falling, 3), vec![0, 1, 2]);
    assert_eq!(top_k_indices(&[u32::MAX, 0, u32::MAX], 2), vec![0, 2]);
}

#[test]
fn equals_sorting_and_cutting() {
    let mut gen = Gen(0x510e_527f_ade6_82d1);
    for round in 0..2000 {
        let len = gen.below(40) as usize;
        // few distinct values in every other round, to have many ties
        let span = if round % 2 == 0 { 4 } else { 1000 };
        let keys: Vec<u32> = (0..len).map(|_| gen.below(span) as u32).collect();
        let k = gen.below(45) as usize;
        let mut expected = ranking(&keys);
        expected.truncate(k);
        assert_eq!(top_k_indices(&keys, k), expected, "{keys:?} {k}");
    }
}

#[test]
fn ranking_the_picked_keys_again_changes_nothing() {
    let mut gen = Gen(0x9b05_688c_2b3e_6c1f);
    for round in 0..1000 {
        let len = gen.below(40) as usize;
        let span = if round % 2 == 0 { 4 } else { 1000 };
        let keys: Vec<u32> = (0..len).map(|_| gen.below(span) as u32).collect();
        let k = gen.below(45) as usize;
        let first = top_k_indices(&keys, k);
        // the same call gives the same answer
        assert_eq!(top_k_indices(&keys, k), first);
        // and the picked keys are already in their order
        let picked: Vec<u32> = first.iter().map(|&i| keys[i]).collect();
        let again = top_k_indices(&picked, k);
        assert_eq!(again, (0..first.len()).collect::<Vec<usize>>());
    }
}

#[test]
fn scores_as_keys() {
    // a score that is not negative is ordered as its bits are
    let scores: [f32; 6] = [4.25, 0.0, 5.875, 4.25, 0.5, 5.5];
    let keys: Vec<u32> = scores.iter().map(|s| s.to_bits()).collect();
    assert_eq!(top_k_indices(&keys, 4), vec![2, 5, 0, 3]);
}
