use vstd::prelude::*;

verus! {

/// Failures reported by alphabet construction and by decoding.
#[derive(Debug, Clone, Copy, PartialEq, Eq, Structural)]
pub enum HachiError {
    /// The text to decode holds a symbol outside the alphabet, a pad symbol
    /// outside the trailing run, or a padded text whose length is not a
    /// multiple of four.
    InvalidInput,
    /// The alphabet does not hold exactly 64 symbols.
    InvalidAlphabetLength,
    /// The alphabet holds some symbol more than once.
    InvalidAlphabetChars,
}

} // verus!
