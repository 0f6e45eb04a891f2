pub mod scanners;
pub mod text;
pub mod tokenizers;
pub mod tokens;
pub mod utils;

pub use tokenizers::Tokenizer;
pub use tokenizers::TokenizerConfig;

use vstd::prelude::*;

verus! {

/// Sum of two machine-sized counts; the inputs must not overflow.
pub fn add(left: usize, right: usize) -> (r: usize)
    requires
        left + right <= usize::MAX,
    ensures
        r == left + right,
{
    left + right
}

} // verus!
