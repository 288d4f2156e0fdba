use wordle_entropy::entropy::nonzero_counts;

#[test]
fn zeros_are_left_out() {
    assert_eq!(nonzero_counts(&[0, 3, 0, 0, 5, 1, 0]), vec![3, 5, 1]);
    assert_eq!(nonzero_counts(&[4, 4]), vec![4, 4]);
    assert_eq!(nonzero_counts(&[0, 0, 0]), Vec::<usize>::new());
    assert_eq!(nonzero_counts(&[]), Vec::<usize>::new());
    assert_eq!(nonzero_counts(&[usize::MAX, 0]), vec![usize::MAX]);
}

#[test]
fn one_outcome_for_all_words() {
    let mut counts = [0usize; 243];
    counts[17] = 12972;
    assert_eq!(nonzero_counts(&counts), vec![12972]);
}

#[test]
fn entropy_of_the_counts_that_are_left() {
    // four outcomes of equal weight give two bits
    let counts = [0usize, 25, 0, 25, 25, 0, 25];
    let total: usize = counts.iter().sum();
    let entropy: f32 = nonzero_counts(&counts)
        .iter()
        .map(|&c| c as f32 / total as f32)
        .map(|p| -p * p.log2())
        .sum();
    assert_eq!(entropy, 2.0);

    // one outcome for all words gives none
    let counts = [0usize, 0, 100, 0];
    let entropy: f32 = nonzero_counts(&counts)
        .iter()
        .map(|&c| c as f32 / 100.0)
        .map(|p| -p * p.log2())
        .sum();
    assert_eq!(entropy, 0.0);
}

#[test]
fn order_of_the_outcomes_does_not_matter() {
    let counts = [0usize, 7, 0, 3, 3, 0, 1, 12, 0, 0, 5];
    let mut turned = counts;
    turned.reverse();
    let mut moved = counts;
    moved.rotate_left(4);
    moved.swap(0, 9);

    let mut kept = nonzero_counts(&counts);
    kept.sort();
    for other in [turned, moved] {
        let mut other_kept = nonzero_counts(&other);
        other_kept.sort();
        assert_eq!(kept, other_kept);
    }
    assert_eq!(kept, vec![1, 3, 3, 5, 7, 12]);
}
