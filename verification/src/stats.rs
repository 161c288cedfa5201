//! Token counts before and after compression.

use vstd::prelude::*;

verus! {

/// How many tokens there were, and how many are left.
#[derive(Debug, Clone, Copy)]
pub struct TokenStats {
    pub before_tokens: usize,
    pub after_tokens: usize,
}

/// What was saved; an expansion saves nothing.
pub open spec fn saved(before: int, after: int) -> int {
    if before >= after {
        before - after
    } else {
        0
    }
}

impl TokenStats {
    pub fn new(before: usize, after: usize) -> (r: Self)
        ensures
            r == (TokenStats { before_tokens: before, after_tokens: after }),
    {
        TokenStats { before_tokens: before, after_tokens: after }
    }

    /// Tokens saved; an expansion saves none.
    pub fn saved_tokens(&self) -> (r: usize)
        ensures
            r == saved(self.before_tokens as int, self.after_tokens as int),
    {
        self.before_tokens.saturating_sub(self.after_tokens)
    }
}

} // verus!
