//! A pipeline of stream transformations applied in insertion order.

use crate::ast::Document;
use crate::mapper::{walk_stage, walk_stream, walked, StreamMapper, TransformationError};
use crate::stream::TokenStream;
use crate::tokens::Token;
use std::ops::Range;
use vstd::prelude::*;

verus! {

/// What a pipeline run produces.
#[derive(Debug)]
pub enum PipelineOutput {
    /// The transformed token stream.
    Tokens(TokenStream),
    /// A parsed document.
    Document(Document),
}

/// `r` is the result of walking the stream with each of the mappers in turn,
/// each in the state given: the output of one is the input of the next, and
/// the first error ends the run.
pub open spec fn ran(
    ms: Seq<Box<dyn StreamMapper>>,
    s: TokenStream,
    r: Result<TokenStream, TransformationError>,
) -> bool
    decreases ms.len(),
{
    if ms.len() == 0 {
        r == Ok::<TokenStream, TransformationError>(s)
    } else {
        exists|rp: Result<TokenStream, TransformationError>|
            #[trigger] walk_stage(rp) && ran(ms.drop_last(), s, rp) && match rp {
                Err(e) => r == Err::<TokenStream, TransformationError>(e),
                Ok(p) => walked(&*ms.last(), p, r),
            }
    }
}

/// A mapper as the pipeline stores it.
pub open spec fn boxed_mapper<T: StreamMapper + 'static>(m: T) -> Box<dyn StreamMapper> {
    let b: Box<T> = Box::new(m);
    b
}

/// An ordered list of transformations.
pub struct Pipeline {
    transformations: Vec<Box<dyn StreamMapper>>,
}

impl Pipeline {
    /// The number of transformations.
    pub closed spec fn spec_count(&self) -> nat {
        self.transformations@.len()
    }

    /// The transformations, in the order they run.
    pub closed spec fn spec_mappers(&self) -> Seq<Box<dyn StreamMapper>> {
        self.transformations@
    }

    /// An empty pipeline.
    pub fn new() -> (r: Pipeline)
        ensures
            r.spec_count() == 0,
    {
        Pipeline { transformations: Vec::new() }
    }

    /// Add a transformation after the existing ones: the transformations
    /// already there stay in place and the given mapper, boxed, comes last.
    pub fn add_transformation<T: StreamMapper + 'static>(self, mapper: T) -> (r: Pipeline)
        ensures
            r.spec_count() == self.spec_count() + 1,
            forall|i: int| 0 <= i < self.spec_count() ==> r.spec_mappers()[i] == self.spec_mappers()[i],
            r.spec_mappers()[self.spec_count() as int] == boxed_mapper(mapper),
    {
        let mut v = self.transformations;
        let ghost vb = v@;
        let b: Box<dyn StreamMapper> = Box::new(mapper);
        let ghost bb = b;
        v.push(b);
        proof {
            vstd::seq::axiom_seq_push_len(vb, bb);
            assert forall|i: int| 0 <= i < vb.len() implies v@[i] == vb[i] by {
                vstd::seq::axiom_seq_push_index_different(vb, bb, i);
            }
        }
        Pipeline { transformations: v }
    }

    /// The number of transformations.
    pub fn transformation_count(&self) -> (r: usize)
        ensures
            r == self.spec_count(),
    {
        self.transformations.len()
    }

    /// Run every transformation in order over a flat token sequence; the
    /// result is the transformed stream. An empty pipeline hands the tokens
    /// back unchanged.
    pub fn run(&mut self, tokens: Vec<(Token, Range<usize>)>) -> (r: Result<PipelineOutput, TransformationError>)
        ensures
            old(self).spec_count() == 0 ==> r is Ok && r->Ok_0 == PipelineOutput::Tokens(TokenStream::Flat(tokens)),
            r is Ok ==> r->Ok_0 is Tokens && ran(
                old(self).spec_mappers(),
                TokenStream::Flat(tokens),
                Ok::<TokenStream, TransformationError>(r->Ok_0->Tokens_0),
            ),
            r is Err ==> ran(
                old(self).spec_mappers(),
                TokenStream::Flat(tokens),
                Err::<TokenStream, TransformationError>(r->Err_0),
            ),
    {
        match self.run_stream(TokenStream::Flat(tokens)) {
            Ok(s) => Ok(PipelineOutput::Tokens(s)),
            Err(e) => Err(e),
        }
    }

    /// Run every transformation in order over the stream; the first error
    /// stops the run. An empty pipeline hands the stream back unchanged.
    pub fn run_stream(&mut self, stream: TokenStream) -> (r: Result<TokenStream, TransformationError>)
        ensures
            ran(old(self).spec_mappers(), stream, r),
            old(self).spec_count() == 0 ==> r == Ok::<TokenStream, TransformationError>(stream),
            final(self).spec_count() == old(self).spec_count(),
    {
        let ghost ms = self.transformations@;
        let ghost s0 = stream;
        let mut current = stream;
        let mut i: usize = 0;
        proof {
            assert(ms.take(0).len() == 0);
        }
        while i < self.transformations.len()
            invariant
                i <= self.transformations@.len(),
                ms == old(self).transformations@,
                s0 == stream,
                self.transformations@.len() == ms.len(),
                forall|j: int| i <= j < ms.len() ==> #[trigger] self.transformations@[j] == ms[j],
                ran(ms.take(i as int), s0, Ok::<TokenStream, TransformationError>(current)),
            decreases self.transformations@.len() - i,
        {
            let ghost before = current;
            let m = &mut self.transformations[i];
            let mr = &mut **m;
            let ghost mr0 = &*mr;
            let res = walk_stream(current, mr);
            proof {
                assert(mr0 == &*ms[i as int]);
                let tk = ms.take(i + 1);
                assert(tk.drop_last() =~= ms.take(i as int));
                assert(tk.last() == ms[i as int]);
                assert(walk_stage(Ok::<TokenStream, TransformationError>(before)));
            }
            current = match res {
                Ok(s) => s,
                Err(e) => {
                    proof {
                        assert(ran(ms.take(i + 1), s0, Err::<TokenStream, TransformationError>(e)));
                        lemma_ran_err(ms, s0, i + 1, e);
                    }
                    return Err(e);
                },
            };
            i = i + 1;
        }
        proof {
            assert(ms.take(i as int) =~= ms);
        }
        Ok(current)
    }
}

/// Once a run has failed, running more mappers gives the same error.
proof fn lemma_ran_err(ms: Seq<Box<dyn StreamMapper>>, s: TokenStream, i: int, e: TransformationError)
    requires
        0 <= i <= ms.len(),
        ran(ms.take(i), s, Err::<TokenStream, TransformationError>(e)),
    ensures
        ran(ms, s, Err::<TokenStream, TransformationError>(e)),
    decreases ms.len() - i,
{
    if i < ms.len() {
        let tk = ms.take(i + 1);
        assert(tk.drop_last() =~= ms.take(i));
        assert(walk_stage(Err::<TokenStream, TransformationError>(e)));
        assert(ran(tk, s, Err::<TokenStream, TransformationError>(e)));
        lemma_ran_err(ms, s, i + 1, e);
    } else {
        assert(ms.take(i) =~= ms);
    }
}

impl Default for Pipeline {
    fn default() -> (r: Pipeline)
        ensures
            r.spec_count() == 0,
    {
        Pipeline::new()
    }
}

} // verus!
