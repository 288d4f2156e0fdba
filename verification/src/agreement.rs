//! The three ways of counting give the same counts.

use vstd::prelude::*;
use crate::compute::{pattern_records, word_records};
use crate::matcher::{counts_of, match_counts};
use crate::pattern::Pattern;
use crate::simd_pattern::{unpack, SimdPattern};
use crate::word::Word;

verus! {

/// Whatever the patterns and the words: what `match_patterns` counts for
/// the patterns (`scalar`), what `match_patterns_simd` counts for the lane
/// groups that hold them (`vector`), and what `unit_counts` counts on the
/// buffers that hold them as the patterns of guess `c` (`device`) are the
/// same counts, pattern by pattern.
pub proof fn lemma_backends_agree(
    patterns: Seq<Pattern>,
    words: Seq<Word>,
    groups: Seq<SimdPattern>,
    word_buf: Seq<u32>,
    pattern_buf: Seq<u32>,
    c: int,
    scalar: Seq<usize>,
    vector: Seq<usize>,
    device: Seq<usize>,
)
    requires
        unpack(groups) == patterns,
        word_records(word_buf) == words,
        pattern_records(pattern_buf, c) == patterns,
        counts_of(scalar) == match_counts(patterns, words),
        counts_of(vector) == match_counts(unpack(groups), words),
        counts_of(device) == match_counts(pattern_records(pattern_buf, c), word_records(word_buf)),
    ensures
        scalar == vector,
        vector == device,
{
    assert(scalar.len() == counts_of(scalar).len());
    assert(vector.len() == counts_of(vector).len());
    assert(device.len() == counts_of(device).len());
    assert forall|j: int| 0 <= j < scalar.len() implies scalar[j] == vector[j] && vector[j]
        == device[j] by {
        assert(counts_of(scalar)[j] == scalar[j] as nat);
        assert(counts_of(vector)[j] == vector[j] as nat);
        assert(counts_of(device)[j] == device[j] as nat);
    }
    assert(scalar =~= vector);
    assert(vector =~= device);
}

} // verus!
