//! Token counting (cl100k_base), with an estimate to fall back on.

use crate::outside::{cl100k_len, count_cl100k};
use vstd::prelude::*;
use vstd::utf8::encode_utf8;

verus! {

broadcast use vstd::string::group_string_axioms;

/// How many tokens a text counts for, given what the encoder said: a quarter of its
/// bytes, but at least one, where the encoder had no answer.
pub open spec fn tokens_given(text: Seq<char>, counted: Option<usize>) -> nat {
    if text.len() == 0 {
        0
    } else {
        match counted {
            Some(n) => n as nat,
            None => if encode_utf8(text).len() / 4 >= 1 {
                encode_utf8(text).len() / 4
            } else {
                1
            },
        }
    }
}

/// How many tokens a text counts for.
pub open spec fn token_count(text: Seq<char>) -> nat {
    tokens_given(text, cl100k_len(text))
}

/// How many tokens `text` counts for, given what the encoder said.
pub fn tokens_or_estimate(text: &str, counted: Option<usize>) -> (r: usize)
    ensures
        r == tokens_given(text@, counted),
{
    if text.is_empty() {
        return 0;
    }
    match counted {
        Some(n) => n,
        None => {
            let quarter: usize = text.as_bytes().len() / 4;
            if quarter >= 1 {
                quarter
            } else {
                1
            }
        },
    }
}

/// How many tokens `text` counts for.
pub fn count_tokens(text: &str) -> (r: usize)
    ensures
        r == token_count(text@),
{
    tokens_or_estimate(text, count_cl100k(text))
}

} // verus!
