//! Turning runs of newlines into blank-line tokens.
//!
//! A single `Newline` stays as it is. A run of two or more becomes its first
//! `Newline` followed by one `BlankLine` token that carries the remaining
//! newlines of the run (with the placeholder range `0..0`). Every other token
//! is kept, with its range.

use crate::mapper::{StreamMapper, TransformationError};
use crate::stream::{ground_pairs, lemma_ground_pairs_concat, lemma_ground_pairs_first, TokenStream};
use crate::tokens::{take_pair, Token};
use std::ops::Range;
use vstd::prelude::*;

verus! {

/// The blank-line transformation.
pub struct BlankLinesMapper;

/// The number of newline tokens at the start of the sequence.
pub open spec fn leading_newlines(s: Seq<(Token, Range<usize>)>) -> nat
    decreases s.len(),
{
    if s.len() > 0 && s[0].0 is Newline {
        1 + leading_newlines(s.drop_first())
    } else {
        0
    }
}

/// The run of leading newlines is no longer than the sequence.
pub proof fn lemma_leading_newlines_bound(s: Seq<(Token, Range<usize>)>)
    ensures
        leading_newlines(s) <= s.len(),
        s.len() > 0 && s[0].0 is Newline ==> leading_newlines(s) >= 1,
    decreases s.len(),
{
    if s.len() > 0 && s[0].0 is Newline {
        lemma_leading_newlines_bound(s.drop_first());
    }
}

/// A run of exactly `k` newlines at the start.
proof fn lemma_leading_newlines_exact(s: Seq<(Token, Range<usize>)>, k: int)
    requires
        0 <= k <= s.len(),
        forall|t: int| 0 <= t < k ==> (#[trigger] s[t]).0 is Newline,
        k == s.len() || !(s[k].0 is Newline),
    ensures
        leading_newlines(s) == k,
    decreases k,
{
    if k > 0 {
        let d = s.drop_first();
        assert forall|t: int| 0 <= t < k - 1 implies (#[trigger] d[t]).0 is Newline by {
            assert(d[t] == s[t + 1]);
        }
        if k - 1 < d.len() {
            assert(d[k - 1] == s[k]);
        }
        lemma_leading_newlines_exact(d, k - 1);
    }
}

/// `out` is the transformation of `inp`: a lone newline is copied; a run of
/// `k >= 2` newlines becomes its first newline and a `BlankLine` carrying the
/// other `k - 1` with range `0..0`; any other token is copied.
pub open spec fn blank_lines_of(out: Seq<(Token, Range<usize>)>, inp: Seq<(Token, Range<usize>)>) -> bool
    decreases inp.len(),
{
    if inp.len() == 0 {
        out.len() == 0
    } else if inp[0].0 is Newline {
        let k = leading_newlines(inp) as int;
        proof {
            lemma_leading_newlines_bound(inp);
        }
        if k == 1 {
            &&& out.len() >= 1
            &&& out[0] == inp[0]
            &&& blank_lines_of(out.skip(1), inp.skip(1))
        } else {
            &&& out.len() >= 2
            &&& out[0] == inp[0]
            &&& out[1].0 is BlankLine
            &&& out[1].0->BlankLine_0@ == inp.subrange(1, k)
            &&& out[1].1 == Range { start: 0usize, end: 0usize }
            &&& blank_lines_of(out.skip(2), inp.skip(k))
        }
    } else {
        &&& out.len() >= 1
        &&& out[0] == inp[0]
        &&& blank_lines_of(out.skip(1), inp.skip(1))
    }
}

/// Replace runs of newlines by a newline and a blank-line token.
pub fn transform_blank_lines(tokens: Vec<(Token, Range<usize>)>) -> (r: Vec<(Token, Range<usize>)>)
    ensures
        blank_lines_of(r@, tokens@),
{
    let ghost inp = tokens@;
    let mut tokens = tokens;
    let n = tokens.len();
    let mut result: Vec<(Token, Range<usize>)> = Vec::new();
    let mut i: usize = 0;
    proof {
        assert forall|out2: Seq<(Token, Range<usize>)>| blank_lines_of(out2, inp.skip(0)) implies blank_lines_of(
            result@ + out2,
            inp,
        ) by {
            assert(inp.skip(0) =~= inp);
            assert(result@ + out2 =~= out2);
        }
    }
    while i < n
        invariant
            i <= n,
            n == inp.len(),
            tokens@.len() == n,
            forall|j: int| i <= j < n ==> #[trigger] tokens@[j] == inp[j],
            forall|out2: Seq<(Token, Range<usize>)>|
                blank_lines_of(out2, inp.skip(i as int)) ==> #[trigger] blank_lines_of(
                    result@ + out2,
                    inp,
                ),
        decreases n - i,
    {
        let ghost res0 = result@;
        let ghost rest = inp.skip(i as int);
        if matches!(tokens[i].0, Token::Newline) {
            let mut end: usize = i;
            while end < n && matches!(tokens[end].0, Token::Newline)
                invariant
                    i <= end <= n,
                    n == inp.len(),
                    tokens@.len() == n,
                    forall|j: int| i <= j < n ==> #[trigger] tokens@[j] == inp[j],
                    forall|t: int| i <= t < end ==> (#[trigger] inp[t]).0 is Newline,
                decreases n - end,
            {
                end = end + 1;
            }
            let ghost k = end - i;
            proof {
                assert forall|t: int| 0 <= t < k implies (#[trigger] rest[t]).0 is Newline by {
                    assert(rest[t] == inp[i + t]);
                }
                if k < rest.len() {
                    assert(rest[k] == inp[end as int]);
                }
                lemma_leading_newlines_exact(rest, k);
            }
            assert(tokens@[i as int] == inp[i as int]);
            let first = take_pair(&mut tokens, i);
            result.push(first);
            let ghost res1 = result@;
            if end - i >= 2 {
                let mut sources: Vec<(Token, Range<usize>)> = Vec::new();
                let mut t: usize = i + 1;
                while t < end
                    invariant
                        i + 1 <= t <= end <= n,
                        n == inp.len(),
                        tokens@.len() == n,
                        forall|j: int| t <= j < n ==> #[trigger] tokens@[j] == inp[j],
                        sources@ == inp.subrange(i + 1, t as int),
                    decreases end - t,
                {
                    assert(tokens@[t as int] == inp[t as int]);
                    let p = take_pair(&mut tokens, t);
                    proof {
                        assert(inp.subrange(i + 1, t + 1) =~= inp.subrange(i + 1, t as int).push(p));
                    }
                    sources.push(p);
                    t = t + 1;
                }
                let ghost src = sources@;
                result.push((Token::BlankLine(sources), Range { start: 0, end: 0 }));
                proof {
                    let bl = (Token::BlankLine(sources), Range { start: 0usize, end: 0usize });
                    assert forall|out2: Seq<(Token, Range<usize>)>|
                        blank_lines_of(out2, inp.skip(end as int)) implies #[trigger] blank_lines_of(
                        result@ + out2,
                        inp,
                    ) by {
                        let out3 = seq![first, bl] + out2;
                        assert(out3[0] == rest[0]);
                        assert(out3.skip(2) =~= out2);
                        assert(rest.subrange(1, k) =~= src);
                        assert(rest.skip(k) =~= inp.skip(end as int));
                        assert(blank_lines_of(out3, rest));
                        assert(res0 + out3 =~= result@ + out2);
                    }
                }
            } else {
                proof {
                    assert forall|out2: Seq<(Token, Range<usize>)>|
                        blank_lines_of(out2, inp.skip(end as int)) implies #[trigger] blank_lines_of(
                        result@ + out2,
                        inp,
                    ) by {
                        let out3 = seq![first] + out2;
                        assert(out3[0] == rest[0]);
                        assert(out3.skip(1) =~= out2);
                        assert(rest.skip(1) =~= inp.skip(end as int));
                        assert(blank_lines_of(out3, rest));
                        assert(res0 + out3 =~= result@ + out2);
                    }
                }
            }
            i = end;
        } else {
            assert(tokens@[i as int] == inp[i as int]);
            let p = take_pair(&mut tokens, i);
            result.push(p);
            proof {
                assert forall|out2: Seq<(Token, Range<usize>)>|
                    blank_lines_of(out2, inp.skip(i + 1)) implies #[trigger] blank_lines_of(
                    result@ + out2,
                    inp,
                ) by {
                    let out3 = seq![p] + out2;
                    assert(rest[0] == inp[i as int]);
                    assert(out3.skip(1) =~= out2);
                    assert(rest.skip(1) =~= inp.skip(i + 1));
                    assert(blank_lines_of(out3, rest));
                    assert(res0 + out3 =~= result@ + out2);
                }
            }
            i = i + 1;
        }
    }
    proof {
        let e = Seq::<(Token, Range<usize>)>::empty();
        assert(inp.skip(n as int) =~= e);
        assert(blank_lines_of(e, inp.skip(n as int)));
        assert(result@ + e =~= result@);
    }
    result
}

impl BlankLinesMapper {
    pub fn new() -> (r: BlankLinesMapper) {
        BlankLinesMapper
    }
}

impl StreamMapper for BlankLinesMapper {
    /// Replace runs of newlines in the flat sequence.
    fn map_flat(&mut self, tokens: Vec<(Token, Range<usize>)>) -> (r: Result<
        TokenStream,
        TransformationError,
    >)
        ensures
            r is Ok && r->Ok_0 is Flat && blank_lines_of(r->Ok_0->Flat_0@, tokens@),
    {
        Ok(TokenStream::Flat(transform_blank_lines(tokens)))
    }
}

} // verus!

verus! {

/// Turning newline runs into blank-line tokens keeps the source: the source
/// pairs behind the result (blank-line tokens standing for the newlines they
/// carry) are exactly those behind the input, ranges included.
pub proof fn lemma_blank_lines_keep_source(out: Seq<(Token, Range<usize>)>, inp: Seq<(Token, Range<usize>)>)
    requires
        blank_lines_of(out, inp),
    ensures
        ground_pairs(out) == ground_pairs(inp),
    decreases inp.len(),
{
    if inp.len() > 0 {
        lemma_ground_pairs_first(inp);
        lemma_ground_pairs_first(out);
        if inp[0].0 is Newline {
            let k = leading_newlines(inp) as int;
            lemma_leading_newlines_bound(inp);
            if k == 1 {
                lemma_blank_lines_keep_source(out.skip(1), inp.skip(1));
            } else {
                let rest = out.skip(1);
                lemma_ground_pairs_first(rest);
                assert(rest[0] == out[1]);
                assert(rest.skip(1) =~= out.skip(2));
                lemma_blank_lines_keep_source(out.skip(2), inp.skip(k));
                lemma_leading_run_newlines(inp);
                let run = inp.subrange(1, k);
                lemma_ground_pairs_newlines(run);
                assert(inp.skip(1) =~= run + inp.skip(k));
                lemma_ground_pairs_concat(run, inp.skip(k));
                assert(ground_pairs(out) =~= ground_pairs(inp));
            }
        } else {
            lemma_blank_lines_keep_source(out.skip(1), inp.skip(1));
        }
    }
}

/// The leading run of newlines is made of newlines.
proof fn lemma_leading_run_newlines(s: Seq<(Token, Range<usize>)>)
    ensures
        forall|t: int| 0 <= t < leading_newlines(s) ==> (#[trigger] s[t]).0 is Newline,
    decreases s.len(),
{
    lemma_leading_newlines_bound(s);
    if s.len() > 0 && s[0].0 is Newline {
        lemma_leading_run_newlines(s.drop_first());
        assert forall|t: int| 0 <= t < leading_newlines(s) implies (#[trigger] s[t]).0 is Newline by {
            if t > 0 {
                assert(s[t] == s.drop_first()[t - 1]);
            }
        }
    }
}

/// Newlines stand for themselves.
proof fn lemma_ground_pairs_newlines(s: Seq<(Token, Range<usize>)>)
    requires
        forall|t: int| 0 <= t < s.len() ==> (#[trigger] s[t]).0 is Newline,
    ensures
        ground_pairs(s) == s,
    decreases s.len(),
{
    if s.len() > 0 {
        let p = s.drop_last();
        assert forall|t: int| 0 <= t < p.len() implies (#[trigger] p[t]).0 is Newline by {
            assert(p[t] == s[t]);
        }
        lemma_ground_pairs_newlines(p);
        assert(s[s.len() - 1].0 is Newline);
        assert(ground_pairs(s) =~= s);
    }
}

/// No two newline tokens follow each other.
pub open spec fn no_adjacent_newlines(s: Seq<(Token, Range<usize>)>) -> bool {
    forall|i: int| 0 <= i && i + 1 < s.len() ==> !((#[trigger] s[i]).0 is Newline && s[i + 1].0 is Newline)
}

/// After the transformation, no two newlines are adjacent: every run of two
/// or more has become a newline and a blank-line token.
pub proof fn lemma_blank_lines_no_adjacent_newlines(out: Seq<(Token, Range<usize>)>, inp: Seq<(Token, Range<usize>)>)
    requires
        blank_lines_of(out, inp),
    ensures
        no_adjacent_newlines(out),
    decreases inp.len(),
{
    if inp.len() > 0 {
        lemma_leading_newlines_bound(inp);
        if inp[0].0 is Newline {
            let k = leading_newlines(inp) as int;
            if k == 1 {
                let o = out.skip(1);
                let x = inp.skip(1);
                lemma_blank_lines_no_adjacent_newlines(o, x);
                assert(x =~= inp.drop_first());
                if x.len() > 0 {
                    assert(!(x[0].0 is Newline));
                    assert(o.len() > 0 && o[0] == x[0]);
                }
                assert forall|i: int| 0 <= i && i + 1 < out.len() implies !((#[trigger] out[i]).0 is Newline
                    && out[i + 1].0 is Newline) by {
                    if i > 0 {
                        assert(out[i] == o[i - 1] && out[i + 1] == o[i]);
                    } else {
                        assert(out[1] == o[0]);
                    }
                }
            } else {
                let o = out.skip(2);
                lemma_blank_lines_no_adjacent_newlines(o, inp.skip(k));
                assert forall|i: int| 0 <= i && i + 1 < out.len() implies !((#[trigger] out[i]).0 is Newline
                    && out[i + 1].0 is Newline) by {
                    if i > 1 {
                        assert(out[i] == o[i - 2] && out[i + 1] == o[i - 1]);
                    }
                }
            }
        } else {
            let o = out.skip(1);
            lemma_blank_lines_no_adjacent_newlines(o, inp.skip(1));
            assert forall|i: int| 0 <= i && i + 1 < out.len() implies !((#[trigger] out[i]).0 is Newline
                && out[i + 1].0 is Newline) by {
                if i > 0 {
                    assert(out[i] == o[i - 1] && out[i + 1] == o[i]);
                }
            }
        }
    }
}

} // verus!
