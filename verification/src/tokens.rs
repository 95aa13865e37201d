//! Core token types: the raw tokens produced by tokenization and the
//! classified lines built from them.

use std::ops::Range;
use vstd::prelude::*;

verus! {

/// A raw token. Synthetic structural tokens (`Indent`, `Dedent`, `BlankLine`)
/// carry the source tokens they stand for.
#[derive(Debug, PartialEq)]
pub enum Token {
    Text(String),
    Number(String),
    Whitespace,
    Newline,
    Indentation,
    Indent(Vec<(Token, Range<usize>)>),
    Dedent(Vec<(Token, Range<usize>)>),
    BlankLine(Vec<(Token, Range<usize>)>),
    LexMarker,
    Dash,
    Period,
    OpenParen,
    CloseParen,
    Colon,
    Comma,
    Quote,
    Equals,
    ExclamationMark,
    QuestionMark,
    Semicolon,
}

/// A token paired with the byte range it covers in the source.
pub type TokenPair = (Token, Range<usize>);

/// The value of a token: the text of text and number tokens, and for the
/// structural tokens the values of the source tokens they carry.
pub enum TokenValue {
    Text(Seq<char>),
    Number(Seq<char>),
    Whitespace,
    Newline,
    Indentation,
    Indent(Seq<(TokenValue, Range<usize>)>),
    Dedent(Seq<(TokenValue, Range<usize>)>),
    BlankLine(Seq<(TokenValue, Range<usize>)>),
    LexMarker,
    Dash,
    Period,
    OpenParen,
    CloseParen,
    Colon,
    Comma,
    Quote,
    Equals,
    ExclamationMark,
    QuestionMark,
    Semicolon,
}

impl Token {
    /// The value of the token.
    pub open spec fn value(self) -> TokenValue
        decreases self, 1nat,
    {
        match self {
            Token::Text(s) => TokenValue::Text(s@),
            Token::Number(s) => TokenValue::Number(s@),
            Token::Whitespace => TokenValue::Whitespace,
            Token::Newline => TokenValue::Newline,
            Token::Indentation => TokenValue::Indentation,
            Token::Indent(v) => {
                proof {
                    assert(decreases_to!(self => v));
                    assert(decreases_to!(v => v@));
                }
                TokenValue::Indent(pairs_value(v@))
            },
            Token::Dedent(v) => {
                proof {
                    assert(decreases_to!(self => v));
                    assert(decreases_to!(v => v@));
                }
                TokenValue::Dedent(pairs_value(v@))
            },
            Token::BlankLine(v) => {
                proof {
                    assert(decreases_to!(self => v));
                    assert(decreases_to!(v => v@));
                }
                TokenValue::BlankLine(pairs_value(v@))
            },
            Token::LexMarker => TokenValue::LexMarker,
            Token::Dash => TokenValue::Dash,
            Token::Period => TokenValue::Period,
            Token::OpenParen => TokenValue::OpenParen,
            Token::CloseParen => TokenValue::CloseParen,
            Token::Colon => TokenValue::Colon,
            Token::Comma => TokenValue::Comma,
            Token::Quote => TokenValue::Quote,
            Token::Equals => TokenValue::Equals,
            Token::ExclamationMark => TokenValue::ExclamationMark,
            Token::QuestionMark => TokenValue::QuestionMark,
            Token::Semicolon => TokenValue::Semicolon,
        }
    }
}

/// The values of a sequence of token pairs, with their ranges.
pub open spec fn pairs_value(s: Seq<(Token, Range<usize>)>) -> Seq<(TokenValue, Range<usize>)>
    decreases s, 0nat,
{
    if s.len() == 0 {
        Seq::empty()
    } else {
        proof {
            assert(decreases_to!(s => s.last()));
            assert(decreases_to!(s.last() => s.last().0));
        }
        pairs_value(s.drop_last()).push((s.last().0.value(), s.last().1))
    }
}

/// Appending a pair appends its value.
pub proof fn lemma_pairs_value_push(s: Seq<(Token, Range<usize>)>, x: (Token, Range<usize>))
    ensures
        pairs_value(s.push(x)) == pairs_value(s).push((x.0.value(), x.1)),
{
    assert(s.push(x).drop_last() =~= s);
}

/// There is one value per pair, in order.
pub proof fn lemma_pairs_value_index(s: Seq<(Token, Range<usize>)>)
    ensures
        pairs_value(s).len() == s.len(),
        forall|i: int| 0 <= i < s.len() ==> #[trigger] pairs_value(s)[i] == (s[i].0.value(), s[i].1),
    decreases s.len(),
{
    if s.len() > 0 {
        lemma_pairs_value_index(s.drop_last());
    }
}

/// The value of a concatenation is the concatenation of the values.
pub proof fn lemma_pairs_value_concat(a: Seq<(Token, Range<usize>)>, b: Seq<(Token, Range<usize>)>)
    ensures
        pairs_value(a + b) == pairs_value(a) + pairs_value(b),
    decreases b.len(),
{
    if b.len() == 0 {
        assert(a + b =~= a);
        assert(pairs_value(a) + pairs_value(b) =~= pairs_value(a));
    } else {
        lemma_pairs_value_concat(a, b.drop_last());
        assert((a + b).drop_last() =~= a + b.drop_last());
        assert((a + b).last() == b.last());
        assert(pairs_value(a) + pairs_value(b) =~= (pairs_value(a) + pairs_value(b.drop_last())).push(
            (b.last().0.value(), b.last().1),
        ));
    }
}

impl Token {
    /// Structural tokens are the synthetic ones that carry source tokens.
    pub open spec fn is_structural(&self) -> bool {
        self is Indent || self is Dedent || self is BlankLine
    }

    /// Whether the token is inline whitespace.
    pub fn is_whitespace(&self) -> (r: bool)
        ensures
            r == (self is Whitespace),
    {
        matches!(self, Token::Whitespace)
    }

    /// Whether the token is one of the sentence-ending punctuation marks.
    pub fn is_end_punctuation(&self) -> (r: bool)
        ensures
            r == (self is Period || self is ExclamationMark || self is QuestionMark),
    {
        matches!(self, Token::Period | Token::ExclamationMark | Token::QuestionMark)
    }

    /// A copy of the token. Leaf tokens are copied exactly; structural tokens
    /// keep their kind and the number of source tokens they carry.
    pub fn deep_clone(&self) -> (r: Token)
        ensures
            !self.is_structural() ==> r == *self,
            self is Indent ==> r is Indent && r->Indent_0@.len() == self->Indent_0@.len(),
            self is Dedent ==> r is Dedent && r->Dedent_0@.len() == self->Dedent_0@.len(),
            self is BlankLine ==> r is BlankLine && r->BlankLine_0@.len()
                == self->BlankLine_0@.len(),
            r.value() == self.value(),
        decreases self, 1nat,
    {
        match self {
            Token::Text(s) => Token::Text(s.clone()),
            Token::Number(s) => Token::Number(s.clone()),
            Token::Whitespace => Token::Whitespace,
            Token::Newline => Token::Newline,
            Token::Indentation => Token::Indentation,
            Token::Indent(v) => Token::Indent(clone_pairs(v)),
            Token::Dedent(v) => Token::Dedent(clone_pairs(v)),
            Token::BlankLine(v) => Token::BlankLine(clone_pairs(v)),
            Token::LexMarker => Token::LexMarker,
            Token::Dash => Token::Dash,
            Token::Period => Token::Period,
            Token::OpenParen => Token::OpenParen,
            Token::CloseParen => Token::CloseParen,
            Token::Colon => Token::Colon,
            Token::Comma => Token::Comma,
            Token::Quote => Token::Quote,
            Token::Equals => Token::Equals,
            Token::ExclamationMark => Token::ExclamationMark,
            Token::QuestionMark => Token::QuestionMark,
            Token::Semicolon => Token::Semicolon,
        }
    }
}

/// A copy of a byte range.
pub fn clone_range(r: &Range<usize>) -> (c: Range<usize>)
    ensures
        c == *r,
{
    Range { start: r.start, end: r.end }
}

/// A copy of a sequence of token pairs: same length, same ranges, and each
/// token copied as `Token::deep_clone` copies it.
pub fn clone_pairs(v: &Vec<(Token, Range<usize>)>) -> (r: Vec<(Token, Range<usize>)>)
    ensures
        r@.len() == v@.len(),
        forall|i: int| 0 <= i < v@.len() ==> (#[trigger] r@[i]).1 == v@[i].1,
        forall|i: int|
            0 <= i < v@.len() && !(#[trigger] v@[i]).0.is_structural() ==> r@[i].0 == v@[i].0,
        pairs_value(r@) == pairs_value(v@),
    decreases v, 0nat,
{
    let mut out: Vec<(Token, Range<usize>)> = Vec::new();
    let mut i: usize = 0;
    while i < v.len()
        invariant
            i <= v@.len(),
            out@.len() == i,
            forall|j: int| 0 <= j < i ==> (#[trigger] out@[j]).1 == v@[j].1,
            forall|j: int|
                0 <= j < i && !(#[trigger] v@[j]).0.is_structural() ==> out@[j].0 == v@[j].0,
            pairs_value(out@) == pairs_value(v@.take(i as int)),
        decreases v@.len() - i,
    {
        proof {
            assert(decreases_to!(v => v@));
            assert(decreases_to!(v@ => v@[i as int]));
            assert(decreases_to!(v@[i as int] => v@[i as int].0));
        }
        let t = v[i].0.deep_clone();
        let r = clone_range(&v[i].1);
        proof {
            lemma_pairs_value_push(out@, (t, r));
            lemma_pairs_value_push(v@.take(i as int), v@[i as int]);
            assert(v@.take(i + 1) =~= v@.take(i as int).push(v@[i as int]));
        }
        out.push((t, r));
        i = i + 1;
    }
    proof {
        assert(v@.take(i as int) =~= v@);
    }
    out
}

impl Clone for Token {
    fn clone(&self) -> (r: Token)
        ensures
            !self.is_structural() ==> r == *self,
    {
        self.deep_clone()
    }
}

} // verus!

verus! {

/// The classification of one logical line.
#[derive(Debug, Clone, Copy, PartialEq, Eq, Structural)]
pub enum LineType {
    ParagraphLine,
    SubjectLine,
    ListLine,
    SubjectOrListItemLine,
    BlankLine,
    AnnotationStartLine,
    AnnotationEndLine,
    DialogLine,
    Indent,
    Dedent,
}

/// The grammar notation of each line type.
pub open spec fn grammar_string_of(t: LineType) -> Seq<char> {
    match t {
        LineType::ParagraphLine => "<paragraph-line>"@,
        LineType::SubjectLine => "<subject-line>"@,
        LineType::ListLine => "<list-line>"@,
        LineType::SubjectOrListItemLine => "<subject-or-list-item-line>"@,
        LineType::BlankLine => "<blank-line>"@,
        LineType::AnnotationStartLine => "<annotation-start-line>"@,
        LineType::AnnotationEndLine => "<annotation-end-line>"@,
        LineType::DialogLine => "<dialog-line>"@,
        LineType::Indent => "<indent>"@,
        LineType::Dedent => "<dedent>"@,
    }
}

impl LineType {
    /// The notation of the line type in grammar strings, such as `<subject-line>`.
    pub fn to_grammar_string(&self) -> (r: String)
        ensures
            r@ == grammar_string_of(*self),
    {
        let s: &str = match self {
            LineType::ParagraphLine => "<paragraph-line>",
            LineType::SubjectLine => "<subject-line>",
            LineType::ListLine => "<list-line>",
            LineType::SubjectOrListItemLine => "<subject-or-list-item-line>",
            LineType::BlankLine => "<blank-line>",
            LineType::AnnotationStartLine => "<annotation-start-line>",
            LineType::AnnotationEndLine => "<annotation-end-line>",
            LineType::DialogLine => "<dialog-line>",
            LineType::Indent => "<indent>",
            LineType::Dedent => "<dedent>",
        };
        s.to_owned()
    }
}

/// One classified line: its source tokens, their byte ranges, and its type.
#[derive(Debug, Clone, PartialEq)]
pub struct LineToken {
    pub source_tokens: Vec<Token>,
    pub token_spans: Vec<Range<usize>>,
    pub line_type: LineType,
}

/// The pairs `(token, span)` of a line, as far as both lists reach.
pub open spec fn zip_spec(tokens: Seq<Token>, spans: Seq<Range<usize>>) -> Seq<(Token, Range<usize>)> {
    Seq::new(
        if tokens.len() <= spans.len() { tokens.len() } else { spans.len() },
        |i: int| (tokens[i], spans[i]),
    )
}

/// A line by value: the values of its tokens, their spans, and its type.
pub open spec fn line_value(lt: LineToken) -> (Seq<TokenValue>, Seq<Range<usize>>, LineType) {
    (lt.source_tokens@.map_values(|t: Token| t.value()), lt.token_spans@, lt.line_type)
}

impl LineToken {
    /// A copy of the line, token for token and span for span.
    pub fn deep_clone(&self) -> (r: LineToken)
        ensures
            line_value(r) == line_value(*self),
    {
        let mut toks: Vec<Token> = Vec::new();
        let mut i: usize = 0;
        while i < self.source_tokens.len()
            invariant
                i <= self.source_tokens@.len(),
                toks@.map_values(|t: Token| t.value()) == self.source_tokens@.take(i as int).map_values(
                    |t: Token| t.value(),
                ),
            decreases self.source_tokens@.len() - i,
        {
            let t = self.source_tokens[i].deep_clone();
            proof {
                assert(self.source_tokens@.take(i + 1) =~= self.source_tokens@.take(i as int).push(
                    self.source_tokens@[i as int],
                ));
                assert(toks@.push(t).map_values(|t: Token| t.value()) =~= toks@.map_values(
                    |t: Token| t.value(),
                ).push(t.value()));
                assert(self.source_tokens@.take(i as int).push(self.source_tokens@[i as int]).map_values(
                    |t: Token| t.value(),
                ) =~= self.source_tokens@.take(i as int).map_values(|t: Token| t.value()).push(
                    self.source_tokens@[i as int].value(),
                ));
            }
            toks.push(t);
            i = i + 1;
        }
        let mut spans: Vec<Range<usize>> = Vec::new();
        let mut j: usize = 0;
        while j < self.token_spans.len()
            invariant
                j <= self.token_spans@.len(),
                spans@ == self.token_spans@.take(j as int),
            decreases self.token_spans@.len() - j,
        {
            let r = clone_range(&self.token_spans[j]);
            proof {
                assert(self.token_spans@.take(j + 1) =~= self.token_spans@.take(j as int).push(r));
            }
            spans.push(r);
            j = j + 1;
        }
        proof {
            assert(self.source_tokens@.take(i as int) =~= self.source_tokens@);
            assert(self.token_spans@.take(j as int) =~= self.token_spans@);
        }
        LineToken { source_tokens: toks, token_spans: spans, line_type: self.line_type }
    }

    /// The line's tokens paired with their spans.
    pub fn source_token_pairs(self) -> (r: Vec<(Token, Range<usize>)>)
        ensures
            r@ == zip_spec(self.source_tokens@, self.token_spans@),
    {
        zip_pairs(self.source_tokens, self.token_spans)
    }
}

/// Pair up tokens and spans position by position; the longer list is cut.
pub fn zip_pairs(tokens: Vec<Token>, spans: Vec<Range<usize>>) -> (r: Vec<(Token, Range<usize>)>)
    ensures
        r@ == zip_spec(tokens@, spans@),
{
    let ghost t0 = tokens@;
    let ghost s0 = spans@;
    let n = tokens.len();
    let mut out: Vec<(Token, Range<usize>)> = Vec::new();
    let mut i: usize = 0;
    for t in it: tokens.into_iter()
        invariant
            i == it.index(),
            it.seq() == t0,
            out@ == zip_spec(t0.take(i as int), s0),
            spans@ == s0,
            i <= t0.len(),
            n == t0.len(),
    {
        if i < spans.len() {
            let r = clone_range(&spans[i]);
            out.push((t, r));
        }
        i = i + 1;
    }
    out
}

} // verus!

verus! {

/// Lines arranged by nesting: a line, or a container holding nested lines.
#[derive(Debug, PartialEq)]
pub enum LineContainer {
    Token(LineToken),
    Container { children: Vec<LineContainer> },
}

/// A container by value: a line's value, or the values of nested containers.
pub enum ContainerValue {
    Line((Seq<TokenValue>, Seq<Range<usize>>, LineType)),
    Block(Seq<ContainerValue>),
}

/// The value of a container.
pub open spec fn container_value(c: LineContainer) -> ContainerValue
    decreases c, 1nat,
{
    match c {
        LineContainer::Token(t) => ContainerValue::Line(line_value(t)),
        LineContainer::Container { children } => {
            proof {
                assert(decreases_to!(children => children@));
            }
            ContainerValue::Block(containers_value(children@))
        },
    }
}

/// The values of a list of containers, one per container.
pub open spec fn containers_value(cs: Seq<LineContainer>) -> Seq<ContainerValue>
    decreases cs, 0nat,
{
    if cs.len() == 0 {
        Seq::empty()
    } else {
        containers_value(cs.drop_last()).push(container_value(cs.last()))
    }
}

impl LineContainer {
    /// A copy of the container: the same nesting, with every line copied
    /// token for token.
    pub fn deep_clone(&self) -> (r: LineContainer)
        ensures
            container_value(r) == container_value(*self),
        decreases self, 1nat,
    {
        match self {
            LineContainer::Token(t) => LineContainer::Token(t.deep_clone()),
            LineContainer::Container { children } => {
                LineContainer::Container { children: clone_containers(children) }
            },
        }
    }
}

/// A copy of a list of containers, each copied as `LineContainer::deep_clone`
/// copies it.
pub fn clone_containers(v: &Vec<LineContainer>) -> (r: Vec<LineContainer>)
    ensures
        containers_value(r@) == containers_value(v@),
    decreases v, 0nat,
{
    let mut out: Vec<LineContainer> = Vec::new();
    let mut i: usize = 0;
    while i < v.len()
        invariant
            i <= v@.len(),
            containers_value(out@) == containers_value(v@.take(i as int)),
        decreases v@.len() - i,
    {
        proof {
            assert(decreases_to!(v => v@));
            assert(decreases_to!(v@ => v@[i as int]));
        }
        let c = v[i].deep_clone();
        proof {
            assert(out@.push(c).drop_last() =~= out@);
            assert(v@.take(i + 1).drop_last() =~= v@.take(i as int));
        }
        out.push(c);
        i = i + 1;
    }
    proof {
        assert(v@.take(i as int) =~= v@);
    }
    out
}

impl Clone for LineContainer {
    fn clone(&self) -> (r: LineContainer)
        ensures
            container_value(r) == container_value(*self),
    {
        self.deep_clone()
    }
}

} // verus!

verus! {

/// Move the pair at position `i` out of the vector, leaving a whitespace
/// placeholder with an empty range in its place.
pub fn take_pair(v: &mut Vec<(Token, Range<usize>)>, i: usize) -> (p: (Token, Range<usize>))
    requires
        i < old(v)@.len(),
    ensures
        p == old(v)@[i as int],
        final(v)@ == old(v)@.update(i as int, (Token::Whitespace, Range { start: 0, end: 0 })),
{
    let mut tmp: (Token, Range<usize>) = (Token::Whitespace, Range { start: 0, end: 0 });
    std::mem::swap(&mut v[i], &mut tmp);
    tmp
}

} // verus!
