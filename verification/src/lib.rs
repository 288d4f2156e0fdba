//! Ranking of guess words in a five-letter word game by the information
//! that each guess is expected to give.
//!
//! Words and feedback patterns are packed into a few machine words, so that
//! whether a pattern admits a word is decided by a handful of bit operations.
//! For each guess the words are counted by the feedback that the guess would
//! get: pattern by pattern, four patterns to a pass of lane operations, or on
//! the buffers of a compute device. All three give the same counts.

pub mod agreement;
pub mod ascii_bit_set;
pub mod compute;
pub mod entropy;
pub mod fivegram;
pub mod matcher;
pub mod partition;
pub mod pattern;
pub mod ranker;
pub mod simd_pattern;
pub mod std_specs;
pub mod word;

pub use ascii_bit_set::AsciiBitSet;
pub use fivegram::Fivegram;
pub use pattern::{Pattern, Patterns};
pub use simd_pattern::SimdPattern;
pub use word::Word;
