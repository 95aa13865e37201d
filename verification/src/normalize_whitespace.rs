//! Removal of the whitespace left between indentation and text.
//!
//! A `Whitespace` token directly after an `Indentation` token and directly
//! before a `Text` token is dropped; every other token is kept, in order and
//! with its range.

use crate::mapper::{StreamMapper, TransformationError};
use crate::stream::TokenStream;
use crate::tokens::{take_pair, Token};
use std::ops::Range;
use vstd::prelude::*;

verus! {

/// The whitespace normalization transformation.
pub struct NormalizeWhitespaceMapper;

/// The token at `i` is whitespace between indentation and text.
pub open spec fn is_remainder_space(s: Seq<(Token, Range<usize>)>, i: int) -> bool {
    &&& s[i].0 is Whitespace
    &&& i > 0
    &&& s[i - 1].0 is Indentation
    &&& i + 1 < s.len()
    &&& s[i + 1].0 is Text
}

/// The first `n` pairs of `s` without the remainder spaces among them.
pub open spec fn normalized_prefix(s: Seq<(Token, Range<usize>)>, n: int) -> Seq<(Token, Range<usize>)>
    decreases n,
{
    if n <= 0 {
        Seq::empty()
    } else if is_remainder_space(s, n - 1) {
        normalized_prefix(s, n - 1)
    } else {
        normalized_prefix(s, n - 1).push(s[n - 1])
    }
}

/// The pairs of `s` without remainder spaces.
pub open spec fn normalized(s: Seq<(Token, Range<usize>)>) -> Seq<(Token, Range<usize>)> {
    normalized_prefix(s, s.len() as int)
}

/// Drop the whitespace between indentation and text.
pub fn normalize_whitespace(tokens: Vec<(Token, Range<usize>)>) -> (r: Vec<(Token, Range<usize>)>)
    ensures
        r@ == normalized(tokens@),
{
    let ghost inp = tokens@;
    let mut tokens = tokens;
    let n = tokens.len();
    let mut result: Vec<(Token, Range<usize>)> = Vec::new();
    let mut prev_indentation = false;
    let mut i: usize = 0;
    while i < n
        invariant
            i <= n,
            n == inp.len(),
            tokens@.len() == n,
            forall|j: int| i <= j < n ==> #[trigger] tokens@[j] == inp[j],
            prev_indentation == (i > 0 && inp[i - 1].0 is Indentation),
            result@ == normalized_prefix(inp, i as int),
        decreases n - i,
    {
        assert(tokens@[i as int] == inp[i as int]);
        let is_ws = matches!(tokens[i].0, Token::Whitespace);
        let next_text = i + 1 < n && matches!(tokens[i + 1].0, Token::Text(_));
        proof {
            if i + 1 < n {
                assert(tokens@[i + 1] == inp[i + 1]);
            }
        }
        let was_indentation = prev_indentation;
        let p = take_pair(&mut tokens, i);
        prev_indentation = matches!(p.0, Token::Indentation);
        if !(is_ws && was_indentation && next_text) {
            result.push(p);
        }
        i = i + 1;
    }
    result
}

impl NormalizeWhitespaceMapper {
    pub fn new() -> (r: NormalizeWhitespaceMapper) {
        NormalizeWhitespaceMapper
    }
}

impl StreamMapper for NormalizeWhitespaceMapper {
    /// Drop the whitespace between indentation and text in the flat sequence.
    fn map_flat(&mut self, tokens: Vec<(Token, Range<usize>)>) -> (r: Result<
        TokenStream,
        TransformationError,
    >)
        ensures
            r is Ok && r->Ok_0 is Flat && r->Ok_0->Flat_0@ == normalized(tokens@),
    {
        Ok(TokenStream::Flat(normalize_whitespace(tokens)))
    }
}

} // verus!
