//! The lexer/parser pairing of the earlier processing pipeline: which lexer
//! and which parser a pipeline uses, and the names that can be chosen.

use vstd::prelude::*;

verus! {

/// The names of the lexers that can be chosen, in order.
pub open spec fn lexer_names() -> Seq<Seq<char>> {
    seq!["indentation"@, "linebased"@]
}

/// The names of the parsers that can be chosen, in order.
pub open spec fn parser_names() -> Seq<Seq<char>> {
    seq!["linebased"@, "reference"@]
}

/// A pipeline made of a lexer and a parser, chosen by name.
pub struct LexPipeline {
    lexer_name: String,
    parser_name: String,
}

impl LexPipeline {
    /// The name of the pipeline's lexer.
    pub closed spec fn spec_lexer(&self) -> Seq<char> {
        self.lexer_name@
    }

    /// The name of the pipeline's parser.
    pub closed spec fn spec_parser(&self) -> Seq<char> {
        self.parser_name@
    }

    /// A pipeline with the named lexer and parser.
    pub fn new(lexer_name: &str, parser_name: &str) -> (r: LexPipeline)
        ensures
            r.spec_lexer() == lexer_name@,
            r.spec_parser() == parser_name@,
    {
        LexPipeline { lexer_name: lexer_name.to_owned(), parser_name: parser_name.to_owned() }
    }

    /// The default pipeline: the indentation lexer with the reference parser.
    pub fn default_pipeline() -> (r: LexPipeline)
        ensures
            r.spec_lexer() == "indentation"@,
            r.spec_parser() == "reference"@,
    {
        LexPipeline::new("indentation", "reference")
    }

    /// The name of the lexer.
    pub fn lexer_name(&self) -> (r: &str)
        ensures
            r@ == self.spec_lexer(),
    {
        self.lexer_name.as_str()
    }

    /// The name of the parser.
    pub fn parser_name(&self) -> (r: &str)
        ensures
            r@ == self.spec_parser(),
    {
        self.parser_name.as_str()
    }

    /// Every lexer with every parser, lexer by lexer.
    pub fn available_configurations() -> (r: Vec<(String, String)>)
        ensures
            r@.len() == lexer_names().len() * parser_names().len(),
            forall|i: int, j: int|
                0 <= i < lexer_names().len() && 0 <= j < parser_names().len() ==> {
                    &&& (#[trigger] r@[i * parser_names().len() + j]).0@ == lexer_names()[i]
                    &&& r@[i * parser_names().len() + j].1@ == parser_names()[j]
                },
    {
        let lexers = LexPipeline::available_lexers();
        let parsers = LexPipeline::available_parsers();
        let np = parsers.len();
        let mut out: Vec<(String, String)> = Vec::new();
        let mut i: usize = 0;
        while i < lexers.len()
            invariant
                lexers@.len() == lexer_names().len(),
                parsers@.len() == parser_names().len(),
                np == 2,
                forall|k: int| 0 <= k < lexers@.len() ==> #[trigger] lexers@[k]@ == lexer_names()[k],
                forall|k: int| 0 <= k < parsers@.len() ==> #[trigger] parsers@[k]@ == parser_names()[k],
                i <= lexers@.len(),
                out@.len() == i * np,
                forall|a: int, b: int|
                    0 <= a < i && 0 <= b < np ==> {
                        &&& (#[trigger] out@[a * np + b]).0@ == lexer_names()[a]
                        &&& out@[a * np + b].1@ == parser_names()[b]
                    },
            decreases lexers@.len() - i,
        {
            let mut j: usize = 0;
            while j < parsers.len()
                invariant
                    lexers@.len() == lexer_names().len(),
                    parsers@.len() == parser_names().len(),
                    np == 2,
                    forall|k: int| 0 <= k < lexers@.len() ==> #[trigger] lexers@[k]@ == lexer_names()[k],
                    forall|k: int| 0 <= k < parsers@.len() ==> #[trigger] parsers@[k]@ == parser_names()[k],
                    i < lexers@.len(),
                    j <= np,
                    out@.len() == i * np + j,
                    forall|a: int, b: int|
                        0 <= a < i && 0 <= b < np ==> {
                            &&& (#[trigger] out@[a * np + b]).0@ == lexer_names()[a]
                            &&& out@[a * np + b].1@ == parser_names()[b]
                        },
                    forall|b: int|
                        0 <= b < j ==> {
                            &&& (#[trigger] out@[i * np + b]).0@ == lexer_names()[i as int]
                            &&& out@[i * np + b].1@ == parser_names()[b]
                        },
                decreases np - j,
            {
                let l = lexers[i].clone();
                let p = parsers[j].clone();
                out.push((l, p));
                j = j + 1;
            }
            proof {
                assert forall|a: int, b: int| 0 <= a < i + 1 && 0 <= b < np implies {
                    &&& (#[trigger] out@[a * np + b]).0@ == lexer_names()[a]
                    &&& out@[a * np + b].1@ == parser_names()[b]
                } by {
                    if a == i {
                    }
                }
                assert((i + 1) * np == i * np + np) by (nonlinear_arith);
            }
            i = i + 1;
        }
        out
    }

    /// The names of the lexers.
    pub fn available_lexers() -> (r: Vec<String>)
        ensures
            r@.len() == lexer_names().len(),
            forall|k: int| 0 <= k < r@.len() ==> #[trigger] r@[k]@ == lexer_names()[k],
    {
        let mut v: Vec<String> = Vec::new();
        v.push("indentation".to_owned());
        v.push("linebased".to_owned());
        v
    }

    /// The names of the parsers.
    pub fn available_parsers() -> (r: Vec<String>)
        ensures
            r@.len() == parser_names().len(),
            forall|k: int| 0 <= k < r@.len() ==> #[trigger] r@[k]@ == parser_names()[k],
    {
        let mut v: Vec<String> = Vec::new();
        v.push("linebased".to_owned());
        v.push("reference".to_owned());
        v
    }
}

impl Default for LexPipeline {
    fn default() -> (r: LexPipeline)
        ensures
            r.spec_lexer() == "indentation"@,
            r.spec_parser() == "reference"@,
    {
        LexPipeline::default_pipeline()
    }
}

impl Clone for LexPipeline {
    fn clone(&self) -> (r: LexPipeline)
        ensures
            r.spec_lexer() == self.spec_lexer(),
            r.spec_parser() == self.spec_parser(),
    {
        LexPipeline::new(self.lexer_name.as_str(), self.parser_name.as_str())
    }
}

} // verus!
