//! Processing specifications: what to extract from a document (tokens or an
//! AST) and how to render it, named by strings such as `token-simple` or
//! `ast-linebased-tag`.

use crate::config::AnalysisSpec;
use crate::messages::cat3;
use crate::text::{
    lemma_ascii_byte_boundaries, lemma_utf8_concat, lemma_utf8_injective, str_eq, substring, utf8,
};
use vstd::prelude::*;

verus! {

/// What a processing run extracts.
#[derive(Debug, Clone, Copy, PartialEq, Eq, Structural)]
pub enum ProcessingStage {
    Token,
    Ast,
}

/// How the extracted data is rendered.
#[derive(Debug, Clone, Copy, PartialEq, Eq, Structural)]
pub enum OutputFormat {
    Simple,
    Json,
    RawSimple,
    RawJson,
    Xml,
    AstTag,
    AstTreeviz,
    AstPosition,
    TokenLine,
    TokenTree,
    AstLinebasedTag,
    AstLinebasedTreeviz,
}

/// A stage together with an output format.
#[derive(Debug, Clone, Copy, PartialEq, Eq, Structural)]
pub struct ProcessingSpec {
    pub stage: ProcessingStage,
    pub format: OutputFormat,
}

/// A failed processing request.
#[derive(Debug, Clone, PartialEq)]
pub enum ProcessingError {
    FileNotFound(String),
    InvalidFormat(String),
    InvalidStage(String),
    InvalidFormatType(String),
    IoError(String),
}

/// The variants of [`ProcessingError`], without their texts.
#[derive(Debug, Clone, Copy, PartialEq, Eq, Structural)]
pub enum ProcessingErrorKind {
    FileNotFound,
    InvalidFormat,
    InvalidStage,
    InvalidFormatType,
    IoError,
}

impl ProcessingError {
    /// The variant of the error.
    pub open spec fn kind(self) -> ProcessingErrorKind {
        match self {
            ProcessingError::FileNotFound(_) => ProcessingErrorKind::FileNotFound,
            ProcessingError::InvalidFormat(_) => ProcessingErrorKind::InvalidFormat,
            ProcessingError::InvalidStage(_) => ProcessingErrorKind::InvalidStage,
            ProcessingError::InvalidFormatType(_) => ProcessingErrorKind::InvalidFormatType,
            ProcessingError::IoError(_) => ProcessingErrorKind::IoError,
        }
    }

    /// The text the error carries.
    pub open spec fn text(self) -> Seq<char> {
        match self {
            ProcessingError::FileNotFound(t) => t@,
            ProcessingError::InvalidFormat(t) => t@,
            ProcessingError::InvalidStage(t) => t@,
            ProcessingError::InvalidFormatType(t) => t@,
            ProcessingError::IoError(t) => t@,
        }
    }

    /// The human-readable description of the error.
    pub fn message(&self) -> (r: String)
        ensures
            r@ == error_prefix(self.kind()) + self.text(),
    {
        let (prefix, t): (&str, &String) = match self {
            ProcessingError::FileNotFound(t) => ("File not found: ", t),
            ProcessingError::InvalidFormat(t) => ("Invalid format: ", t),
            ProcessingError::InvalidStage(t) => ("Invalid stage: ", t),
            ProcessingError::InvalidFormatType(t) => ("Invalid format type: ", t),
            ProcessingError::IoError(t) => ("IO error: ", t),
        };
        let mut s = prefix.to_owned();
        s.append(t.as_str());
        s
    }
}

/// The words that open the description of each kind of error.
pub open spec fn error_prefix(k: ProcessingErrorKind) -> Seq<char> {
    match k {
        ProcessingErrorKind::FileNotFound => "File not found: "@,
        ProcessingErrorKind::InvalidFormat => "Invalid format: "@,
        ProcessingErrorKind::InvalidStage => "Invalid stage: "@,
        ProcessingErrorKind::InvalidFormatType => "Invalid format type: "@,
        ProcessingErrorKind::IoError => "IO error: "@,
    }
}

/// The byte of `-`, which separates the stage from the format.
pub open spec fn dash() -> u8 {
    45u8
}

/// `k` is the position of the first `-` in `b`.
pub open spec fn is_first_dash(b: Seq<u8>, k: int) -> bool {
    &&& 0 <= k < b.len()
    &&& b[k] == dash()
    &&& forall|j: int| 0 <= j < k ==> b[j] != dash()
}

/// The stage named by the bytes before the first `-`.
pub open spec fn stage_named(t: Seq<u8>) -> Option<ProcessingStage> {
    if t == utf8("token"@) {
        Some(ProcessingStage::Token)
    } else if t == utf8("ast"@) {
        Some(ProcessingStage::Ast)
    } else {
        None
    }
}

/// The output format named by the bytes after the first `-`; `xml` names a
/// format that is not available.
pub open spec fn format_named(t: Seq<u8>) -> Option<OutputFormat> {
    if t == utf8("simple"@) {
        Some(OutputFormat::Simple)
    } else if t == utf8("json"@) {
        Some(OutputFormat::Json)
    } else if t == utf8("raw-simple"@) {
        Some(OutputFormat::RawSimple)
    } else if t == utf8("raw-json"@) {
        Some(OutputFormat::RawJson)
    } else if t == utf8("tag"@) {
        Some(OutputFormat::AstTag)
    } else if t == utf8("treeviz"@) {
        Some(OutputFormat::AstTreeviz)
    } else if t == utf8("position"@) {
        Some(OutputFormat::AstPosition)
    } else if t == utf8("line"@) {
        Some(OutputFormat::TokenLine)
    } else if t == utf8("tree"@) {
        Some(OutputFormat::TokenTree)
    } else if t == utf8("linebased-tag"@) {
        Some(OutputFormat::AstLinebasedTag)
    } else if t == utf8("linebased-treeviz"@) {
        Some(OutputFormat::AstLinebasedTreeviz)
    } else {
        None
    }
}

/// The variant name of an output format, as debug output writes it.
pub open spec fn format_debug_name(f: OutputFormat) -> Seq<char> {
    match f {
        OutputFormat::Simple => "Simple"@,
        OutputFormat::Json => "Json"@,
        OutputFormat::RawSimple => "RawSimple"@,
        OutputFormat::RawJson => "RawJson"@,
        OutputFormat::Xml => "Xml"@,
        OutputFormat::AstTag => "AstTag"@,
        OutputFormat::AstTreeviz => "AstTreeviz"@,
        OutputFormat::AstPosition => "AstPosition"@,
        OutputFormat::TokenLine => "TokenLine"@,
        OutputFormat::TokenTree => "TokenTree"@,
        OutputFormat::AstLinebasedTag => "AstLinebasedTag"@,
        OutputFormat::AstLinebasedTreeviz => "AstLinebasedTreeviz"@,
    }
}

/// Whether a format renders an AST.
pub open spec fn is_ast_format(f: OutputFormat) -> bool {
    ||| f == OutputFormat::AstTag
    ||| f == OutputFormat::AstTreeviz
    ||| f == OutputFormat::AstPosition
    ||| f == OutputFormat::AstLinebasedTag
    ||| f == OutputFormat::AstLinebasedTreeviz
}

/// Why a stage and a format do not go together, if they do not.
pub open spec fn mismatch_message(stage: ProcessingStage, f: OutputFormat) -> Option<Seq<char>> {
    match stage {
        ProcessingStage::Ast => if is_ast_format(f) {
            None
        } else {
            Some(
                "Format '"@ + format_debug_name(f)
                    + "' not supported for AST stage (only 'tag', 'treeviz', 'position', 'linebased-tag', and 'linebased-treeviz' are supported)"@,
            )
        },
        ProcessingStage::Token => match f {
            OutputFormat::AstTag => Some("Format 'tag' only works with AST stage"@),
            OutputFormat::AstTreeviz => Some("Format 'treeviz' only works with AST stage"@),
            OutputFormat::AstPosition => Some("Format 'position' only works with AST stage"@),
            OutputFormat::AstLinebasedTag => Some(
                "Format 'linebased-tag' only works with AST stage"@,
            ),
            OutputFormat::AstLinebasedTreeviz => Some(
                "Format 'linebased-treeviz' only works with AST stage"@,
            ),
            _ => None,
        },
    }
}

/// The outcome of reading the bytes of a format string: a specification, or
/// the kind of error with the bytes of its text.
pub open spec fn parse_format(b: Seq<u8>) -> Result<ProcessingSpec, (ProcessingErrorKind, Seq<u8>)> {
    if forall|j: int| 0 <= j < b.len() ==> b[j] != dash() {
        Err((ProcessingErrorKind::InvalidFormat, b))
    } else {
        let k = choose|k: int| is_first_dash(b, k);
        let stage_bytes = b.subrange(0, k);
        let rest = b.subrange(k + 1, b.len() as int);
        match stage_named(stage_bytes) {
            None => Err((ProcessingErrorKind::InvalidStage, stage_bytes)),
            Some(stage) => match format_named(rest) {
                None => Err((ProcessingErrorKind::InvalidFormatType, rest)),
                Some(f) => match mismatch_message(stage, f) {
                    Some(m) => Err((ProcessingErrorKind::InvalidFormatType, utf8(m))),
                    None => Ok(ProcessingSpec { stage, format: f }),
                },
            },
        }
    }
}

/// A result agrees with an outcome: the same specification, or an error of
/// the same kind whose text has the same bytes.
pub open spec fn agrees(
    r: Result<ProcessingSpec, ProcessingError>,
    o: Result<ProcessingSpec, (ProcessingErrorKind, Seq<u8>)>,
) -> bool {
    match (r, o) {
        (Ok(a), Ok(b)) => a == b,
        (Err(e), Err((k, t))) => e.kind() == k && utf8(e.text()) == t,
        _ => false,
    }
}

/// The first `-` in a string is unique.
proof fn lemma_first_dash_unique(b: Seq<u8>, k: int, m: int)
    requires
        is_first_dash(b, k),
        is_first_dash(b, m),
    ensures
        k == m,
{
    if k < m {
        assert(b[k] != dash());
    }
    if m < k {
        assert(b[m] != dash());
    }
}

impl OutputFormat {
    /// The variant name, as debug output writes it.
    pub fn debug_name(&self) -> (r: &'static str)
        ensures
            r@ == format_debug_name(*self),
    {
        match self {
            OutputFormat::Simple => "Simple",
            OutputFormat::Json => "Json",
            OutputFormat::RawSimple => "RawSimple",
            OutputFormat::RawJson => "RawJson",
            OutputFormat::Xml => "Xml",
            OutputFormat::AstTag => "AstTag",
            OutputFormat::AstTreeviz => "AstTreeviz",
            OutputFormat::AstPosition => "AstPosition",
            OutputFormat::TokenLine => "TokenLine",
            OutputFormat::TokenTree => "TokenTree",
            OutputFormat::AstLinebasedTag => "AstLinebasedTag",
            OutputFormat::AstLinebasedTreeviz => "AstLinebasedTreeviz",
        }
    }
}

/// Whether the text equals the literal, stated over the bytes of both.
fn text_is(t: &str, lit: &str) -> (r: bool)
    ensures
        r == (utf8(t@) == utf8(lit@)),
{
    let r = str_eq(t, lit);
    proof {
        if utf8(t@) == utf8(lit@) {
            lemma_utf8_injective(t@, lit@);
        }
    }
    r
}

/// The stage named by a text.
fn stage_of(t: &str) -> (r: Option<ProcessingStage>)
    ensures
        r == stage_named(utf8(t@)),
{
    if text_is(t, "token") {
        Some(ProcessingStage::Token)
    } else if text_is(t, "ast") {
        Some(ProcessingStage::Ast)
    } else {
        None
    }
}

/// The output format named by a text.
fn format_of(t: &str) -> (r: Option<OutputFormat>)
    ensures
        r == format_named(utf8(t@)),
{
    if text_is(t, "simple") {
        Some(OutputFormat::Simple)
    } else if text_is(t, "json") {
        Some(OutputFormat::Json)
    } else if text_is(t, "raw-simple") {
        Some(OutputFormat::RawSimple)
    } else if text_is(t, "raw-json") {
        Some(OutputFormat::RawJson)
    } else if text_is(t, "tag") {
        Some(OutputFormat::AstTag)
    } else if text_is(t, "treeviz") {
        Some(OutputFormat::AstTreeviz)
    } else if text_is(t, "position") {
        Some(OutputFormat::AstPosition)
    } else if text_is(t, "line") {
        Some(OutputFormat::TokenLine)
    } else if text_is(t, "tree") {
        Some(OutputFormat::TokenTree)
    } else if text_is(t, "linebased-tag") {
        Some(OutputFormat::AstLinebasedTag)
    } else if text_is(t, "linebased-treeviz") {
        Some(OutputFormat::AstLinebasedTreeviz)
    } else {
        None
    }
}

/// Why a stage and a format do not go together, as a text.
fn mismatch(stage: ProcessingStage, f: OutputFormat) -> (r: Option<String>)
    ensures
        match (r, mismatch_message(stage, f)) {
            (Some(a), Some(b)) => a@ == b,
            (None, None) => true,
            _ => false,
        },
{
    match stage {
        ProcessingStage::Ast => match f {
            OutputFormat::AstTag | OutputFormat::AstTreeviz | OutputFormat::AstPosition
            | OutputFormat::AstLinebasedTag | OutputFormat::AstLinebasedTreeviz => None,
            _ => Some(
                cat3(
                    "Format '",
                    f.debug_name(),
                    "' not supported for AST stage (only 'tag', 'treeviz', 'position', 'linebased-tag', and 'linebased-treeviz' are supported)",
                ),
            ),
        },
        ProcessingStage::Token => match f {
            OutputFormat::AstTag => Some("Format 'tag' only works with AST stage".to_owned()),
            OutputFormat::AstTreeviz => Some(
                "Format 'treeviz' only works with AST stage".to_owned(),
            ),
            OutputFormat::AstPosition => Some(
                "Format 'position' only works with AST stage".to_owned(),
            ),
            OutputFormat::AstLinebasedTag => Some(
                "Format 'linebased-tag' only works with AST stage".to_owned(),
            ),
            OutputFormat::AstLinebasedTreeviz => Some(
                "Format 'linebased-treeviz' only works with AST stage".to_owned(),
            ),
            _ => None,
        },
    }
}

impl ProcessingSpec {
    /// Read a format string such as `token-simple`: the stage comes before
    /// the first `-`, the format after it. A string without `-` is an invalid
    /// format, an unknown stage an invalid stage; an unknown format (`xml`
    /// among them) or one that does not go with the stage is an invalid
    /// format type.
    pub fn from_string(format_str: &str) -> (r: Result<ProcessingSpec, ProcessingError>)
        ensures
            agrees(r, parse_format(utf8(format_str@))),
    {
        let b = format_str.as_bytes();
        let ghost bs = b@;
        let n = b.len();
        let mut k: usize = 0;
        while k < n && b[k] != 45u8
            invariant
                k <= n,
                n == bs.len(),
                b@ == bs,
                forall|j: int| 0 <= j < k ==> bs[j] != dash(),
            decreases n - k,
        {
            k = k + 1;
        }
        if k == n {
            return Err(ProcessingError::InvalidFormat(format_str.to_owned()));
        }
        proof {
            assert(is_first_dash(bs, k as int));
            lemma_ascii_byte_boundaries(format_str@, k as int);
            let c = choose|c: int| is_first_dash(bs, c);
            lemma_first_dash_unique(bs, k as int, c);
        }
        let stage_text = substring(format_str, 0, k);
        let rest = substring(format_str, k + 1, n);
        let stage = match stage_of(stage_text.as_str()) {
            Some(s) => s,
            None => {
                return Err(ProcessingError::InvalidStage(stage_text));
            },
        };
        let format = match format_of(rest.as_str()) {
            Some(f) => f,
            None => {
                return Err(ProcessingError::InvalidFormatType(rest));
            },
        };
        match mismatch(stage, format) {
            Some(m) => Err(ProcessingError::InvalidFormatType(m)),
            None => Ok(ProcessingSpec { stage, format }),
        }
    }

    /// Every specification that can be requested, in a fixed order.
    pub fn available_specs() -> (r: Vec<ProcessingSpec>)
        ensures
            r@ == spec_available_specs(),
    {
        let mut v: Vec<ProcessingSpec> = Vec::new();
        v.push(ProcessingSpec { stage: ProcessingStage::Token, format: OutputFormat::Simple });
        v.push(ProcessingSpec { stage: ProcessingStage::Token, format: OutputFormat::Json });
        v.push(ProcessingSpec { stage: ProcessingStage::Token, format: OutputFormat::RawSimple });
        v.push(ProcessingSpec { stage: ProcessingStage::Token, format: OutputFormat::RawJson });
        v.push(ProcessingSpec { stage: ProcessingStage::Ast, format: OutputFormat::AstTag });
        v.push(ProcessingSpec { stage: ProcessingStage::Ast, format: OutputFormat::AstTreeviz });
        v.push(ProcessingSpec { stage: ProcessingStage::Ast, format: OutputFormat::AstPosition });
        v.push(ProcessingSpec { stage: ProcessingStage::Token, format: OutputFormat::TokenLine });
        v.push(ProcessingSpec { stage: ProcessingStage::Token, format: OutputFormat::TokenTree });
        v.push(
            ProcessingSpec { stage: ProcessingStage::Ast, format: OutputFormat::AstLinebasedTag },
        );
        v.push(
            ProcessingSpec {
                stage: ProcessingStage::Ast,
                format: OutputFormat::AstLinebasedTreeviz,
            },
        );
        proof {
            assert(v@ =~= spec_available_specs());
        }
        v
    }
}

/// The specifications that can be requested, in order.
pub open spec fn spec_available_specs() -> Seq<ProcessingSpec> {
    seq![
        ProcessingSpec { stage: ProcessingStage::Token, format: OutputFormat::Simple },
        ProcessingSpec { stage: ProcessingStage::Token, format: OutputFormat::Json },
        ProcessingSpec { stage: ProcessingStage::Token, format: OutputFormat::RawSimple },
        ProcessingSpec { stage: ProcessingStage::Token, format: OutputFormat::RawJson },
        ProcessingSpec { stage: ProcessingStage::Ast, format: OutputFormat::AstTag },
        ProcessingSpec { stage: ProcessingStage::Ast, format: OutputFormat::AstTreeviz },
        ProcessingSpec { stage: ProcessingStage::Ast, format: OutputFormat::AstPosition },
        ProcessingSpec { stage: ProcessingStage::Token, format: OutputFormat::TokenLine },
        ProcessingSpec { stage: ProcessingStage::Token, format: OutputFormat::TokenTree },
        ProcessingSpec { stage: ProcessingStage::Ast, format: OutputFormat::AstLinebasedTag },
        ProcessingSpec { stage: ProcessingStage::Ast, format: OutputFormat::AstLinebasedTreeviz },
    ]
}

/// The name of a stage in format strings.
pub open spec fn stage_word(s: ProcessingStage) -> Seq<char> {
    match s {
        ProcessingStage::Token => "token"@,
        ProcessingStage::Ast => "ast"@,
    }
}

/// The name of an output format in format strings.
pub open spec fn format_word(f: OutputFormat) -> Seq<char> {
    match f {
        OutputFormat::Simple => "simple"@,
        OutputFormat::Json => "json"@,
        OutputFormat::RawSimple => "raw-simple"@,
        OutputFormat::RawJson => "raw-json"@,
        OutputFormat::Xml => "xml"@,
        OutputFormat::AstTag => "tag"@,
        OutputFormat::AstTreeviz => "treeviz"@,
        OutputFormat::AstPosition => "position"@,
        OutputFormat::TokenLine => "line"@,
        OutputFormat::TokenTree => "tree"@,
        OutputFormat::AstLinebasedTag => "linebased-tag"@,
        OutputFormat::AstLinebasedTreeviz => "linebased-treeviz"@,
    }
}

/// The format string of a specification: stage, `-`, format.
pub open spec fn format_string(s: ProcessingSpec) -> Seq<char> {
    stage_word(s.stage) + "-"@ + format_word(s.format)
}

/// The format string of each available specification, in order.
pub fn available_formats() -> (r: Vec<String>)
    ensures
        r@.len() == spec_available_specs().len(),
        forall|i: int| 0 <= i < r@.len() ==> #[trigger] r@[i]@ == format_string(spec_available_specs()[i]),
{
    let specs = ProcessingSpec::available_specs();
    let mut out: Vec<String> = Vec::new();
    let mut i: usize = 0;
    while i < specs.len()
        invariant
            i <= specs@.len(),
            specs@ == spec_available_specs(),
            out@.len() == i,
            forall|j: int| 0 <= j < i ==> #[trigger] out@[j]@ == format_string(specs@[j]),
        decreases specs@.len() - i,
    {
        let s = specs[i];
        let stage: &str = match s.stage {
            ProcessingStage::Token => "token",
            ProcessingStage::Ast => "ast",
        };
        let format: &str = match s.format {
            OutputFormat::Simple => "simple",
            OutputFormat::Json => "json",
            OutputFormat::RawSimple => "raw-simple",
            OutputFormat::RawJson => "raw-json",
            OutputFormat::Xml => "xml",
            OutputFormat::AstTag => "tag",
            OutputFormat::AstTreeviz => "treeviz",
            OutputFormat::AstPosition => "position",
            OutputFormat::TokenLine => "line",
            OutputFormat::TokenTree => "tree",
            OutputFormat::AstLinebasedTag => "linebased-tag",
            OutputFormat::AstLinebasedTreeviz => "linebased-treeviz",
        };
        out.push(cat3(stage, "-", format));
        i = i + 1;
    }
    out
}

/// The number an extra holds, if it is present and reads as a `usize`.
pub open spec fn extra_number(o: Option<&str>) -> Option<nat> {
    match o {
        Some(s) => crate::samples::usize_text(utf8(s@)),
        None => None,
    }
}

/// The position an `ast-position` output asks for, from the `line` and
/// `column` extras: each must be present and read as a number; the first
/// one that is not gives an `InvalidFormatType` error naming it.
pub fn position_from_extras(line: Option<&str>, column: Option<&str>) -> (r: Result<
    crate::ast::Position,
    ProcessingError,
>)
    ensures
        match (extra_number(line), extra_number(column)) {
            (Some(l), Some(c)) => r == Ok::<crate::ast::Position, ProcessingError>(
                crate::ast::Position { line: l as usize, column: c as usize },
            ),
            (Some(_), None) => r is Err && r->Err_0.kind() == ProcessingErrorKind::InvalidFormatType
                && r->Err_0.text() == "Missing or invalid 'column' extra"@,
            _ => r is Err && r->Err_0.kind() == ProcessingErrorKind::InvalidFormatType
                && r->Err_0.text() == "Missing or invalid 'line' extra"@,
        },
{
    let l = match line {
        Some(s) => crate::samples::parse_usize(s.as_bytes(), 0, s.as_bytes().len()),
        None => None,
    };
    proof {
        if let Some(s) = line {
            assert(utf8(s@).subrange(0, utf8(s@).len() as int) =~= utf8(s@));
        }
    }
    let l = match l {
        Some(v) => v,
        None => {
            return Err(ProcessingError::InvalidFormatType("Missing or invalid 'line' extra".to_owned()));
        },
    };
    let c = match column {
        Some(s) => crate::samples::parse_usize(s.as_bytes(), 0, s.as_bytes().len()),
        None => None,
    };
    proof {
        if let Some(s) = column {
            assert(utf8(s@).subrange(0, utf8(s@).len() as int) =~= utf8(s@));
        }
    }
    let c = match c {
        Some(v) => v,
        None => {
            return Err(
                ProcessingError::InvalidFormatType("Missing or invalid 'column' extra".to_owned()),
            );
        },
    };
    Ok(crate::ast::Position::new(l, c))
}

/// How a parsed document is rendered.
#[derive(Debug, Clone, PartialEq)]
pub enum AstRender {
    /// The tag serialization.
    Tag,
    /// The tree visualization.
    Treeviz,
    /// The element at the given position.
    Position(crate::ast::Position),
}

/// What processing a source according to a specification does.
#[derive(Debug, PartialEq)]
pub enum OutputPlan {
    /// Run the `tokens-linebased-flat` configuration, group its tokens into
    /// lines and write them out as JSON.
    LineTokens,
    /// Run the `tokens-linebased-tree` configuration, build the line
    /// container and write it out as JSON.
    LineTree,
    /// Tokenize the source and write the tokens in the given format.
    Tokens(OutputFormat),
    /// Parse the source with the analyzer, then render the document, or fail
    /// with the error once the source has been parsed.
    Ast { analyzer: AnalysisSpec, render: Result<AstRender, ProcessingError> },
}

/// `r` is what the `line` and `column` extras give: the position when both
/// read as numbers, else an `InvalidFormatType` error naming the first one
/// that does not.
pub open spec fn position_outcome(
    line: Option<&str>,
    column: Option<&str>,
    r: Result<crate::ast::Position, ProcessingError>,
) -> bool {
    match (extra_number(line), extra_number(column)) {
        (Some(l), Some(c)) => r == Ok::<crate::ast::Position, ProcessingError>(
            crate::ast::Position { line: l as usize, column: c as usize },
        ),
        (Some(_), None) => r is Err && r->Err_0.kind() == ProcessingErrorKind::InvalidFormatType
            && r->Err_0.text() == "Missing or invalid 'column' extra"@,
        _ => r is Err && r->Err_0.kind() == ProcessingErrorKind::InvalidFormatType
            && r->Err_0.text() == "Missing or invalid 'line' extra"@,
    }
}

/// Whether an AST format is rendered from the line-based parser's document.
pub open spec fn is_linebased_format(f: OutputFormat) -> bool {
    f == OutputFormat::AstLinebasedTag || f == OutputFormat::AstLinebasedTreeviz
}

/// Decide how a source is processed for a specification: the two line
/// formats run their token configurations whatever the stage; otherwise the
/// token stage formats the tokens, and the AST stage parses with the
/// line-based analyzer for the line-based formats and the reference analyzer
/// for the others, then renders as tag, tree visualization or the element at
/// the position the `line` and `column` extras give; any other format is
/// refused after parsing.
pub fn plan_output(spec: &ProcessingSpec, line: Option<&str>, column: Option<&str>) -> (r: OutputPlan)
    ensures
        spec.format == OutputFormat::TokenLine ==> r == OutputPlan::LineTokens,
        spec.format == OutputFormat::TokenTree ==> r == OutputPlan::LineTree,
        spec.format != OutputFormat::TokenLine && spec.format != OutputFormat::TokenTree ==> match spec.stage {
            ProcessingStage::Token => r == OutputPlan::Tokens(spec.format),
            ProcessingStage::Ast => {
                &&& r is Ast
                &&& r->analyzer == if is_linebased_format(spec.format) {
                    AnalysisSpec::Linebased
                } else {
                    AnalysisSpec::Reference
                }
                &&& match spec.format {
                    OutputFormat::AstTag | OutputFormat::AstLinebasedTag => r->render
                        == Ok::<AstRender, ProcessingError>(AstRender::Tag),
                    OutputFormat::AstTreeviz | OutputFormat::AstLinebasedTreeviz => r->render
                        == Ok::<AstRender, ProcessingError>(AstRender::Treeviz),
                    OutputFormat::AstPosition => match r->render {
                        Ok(AstRender::Position(p)) => position_outcome(
                            line,
                            column,
                            Ok::<crate::ast::Position, ProcessingError>(p),
                        ),
                        Ok(_) => false,
                        Err(e) => position_outcome(
                            line,
                            column,
                            Err::<crate::ast::Position, ProcessingError>(e),
                        ),
                    },
                    _ => r->render is Err && r->render->Err_0.kind()
                        == ProcessingErrorKind::InvalidFormatType && r->render->Err_0.text()
                        == "Unsupported AST format: "@ + format_debug_name(spec.format),
                }
            },
        },
{
    match spec.format {
        OutputFormat::TokenLine => OutputPlan::LineTokens,
        OutputFormat::TokenTree => OutputPlan::LineTree,
        f => match spec.stage {
            ProcessingStage::Token => OutputPlan::Tokens(f),
            ProcessingStage::Ast => {
                let analyzer = match f {
                    OutputFormat::AstLinebasedTag | OutputFormat::AstLinebasedTreeviz => AnalysisSpec::Linebased,
                    _ => AnalysisSpec::Reference,
                };
                let render = match f {
                    OutputFormat::AstTag | OutputFormat::AstLinebasedTag => Ok(AstRender::Tag),
                    OutputFormat::AstTreeviz | OutputFormat::AstLinebasedTreeviz => Ok(AstRender::Treeviz),
                    OutputFormat::AstPosition => match position_from_extras(line, column) {
                        Ok(p) => Ok(AstRender::Position(p)),
                        Err(e) => Err(e),
                    },
                    _ => {
                        let mut m = "Unsupported AST format: ".to_owned();
                        m.append(f.debug_name());
                        Err(ProcessingError::InvalidFormatType(m))
                    },
                };
                OutputPlan::Ast { analyzer, render }
            },
        },
    }
}

/// ASCII text is encoded one byte per character.
proof fn lemma_ascii_bytes(c: Seq<char>)
    requires
        vstd::utf8::is_ascii_chars(c),
    ensures
        utf8(c).len() == c.len(),
        forall|i: int| 0 <= i < c.len() ==> #[trigger] utf8(c)[i] == c[i] as u8,
{
    vstd::utf8::is_ascii_chars_encode_utf8(c);
}

/// The stage words are ASCII without a `-`.
proof fn lemma_stage_word(s: ProcessingStage)
    ensures
        utf8(stage_word(s)).len() == stage_word(s).len(),
        forall|i: int| 0 <= i < utf8(stage_word(s)).len() ==> #[trigger] utf8(stage_word(s))[i] != dash(),
        stage_named(utf8(stage_word(s))) == Some(s),
{
    reveal_strlit("token");
    reveal_strlit("ast");
    let w = stage_word(s);
    assert(vstd::utf8::is_ascii_chars(w));
    lemma_ascii_bytes(w);
    lemma_ascii_bytes("token"@);
    lemma_ascii_bytes("ast"@);
}

/// The format words are ASCII, and each is named back to its format.
proof fn lemma_format_word(f: OutputFormat)
    requires
        f != OutputFormat::Xml,
    ensures
        format_named(utf8(format_word(f))) == Some(f),
{
    reveal_strlit("simple");
    reveal_strlit("json");
    reveal_strlit("raw-simple");
    reveal_strlit("raw-json");
    reveal_strlit("tag");
    reveal_strlit("treeviz");
    reveal_strlit("position");
    reveal_strlit("line");
    reveal_strlit("tree");
    reveal_strlit("linebased-tag");
    reveal_strlit("linebased-treeviz");
    lemma_ascii_bytes("simple"@);
    lemma_ascii_bytes("json"@);
    lemma_ascii_bytes("raw-simple"@);
    lemma_ascii_bytes("raw-json"@);
    lemma_ascii_bytes("tag"@);
    lemma_ascii_bytes("treeviz"@);
    lemma_ascii_bytes("position"@);
    lemma_ascii_bytes("line"@);
    lemma_ascii_bytes("tree"@);
    lemma_ascii_bytes("linebased-tag"@);
    lemma_ascii_bytes("linebased-treeviz"@);
    let b = utf8(format_word(f));
    assert(b[0] == format_word(f)[0] as u8);
    assert(utf8("json"@)[0] == 'j' as u8);
    assert(utf8("line"@)[0] == 'l' as u8);
    assert(utf8("tree"@)[0] == 't' as u8);
    assert(utf8("raw-json"@)[0] == 'r' as u8);
    assert(utf8("position"@)[0] == 'p' as u8);
}

/// Every format string that `available_formats` lists is accepted by
/// `from_string` and names the specification it was made from.
pub proof fn lemma_available_formats_parse(i: int)
    requires
        0 <= i < spec_available_specs().len(),
    ensures
        parse_format(utf8(format_string(spec_available_specs()[i]))) == Ok::<
            ProcessingSpec,
            (ProcessingErrorKind, Seq<u8>),
        >(spec_available_specs()[i]),
{
    let sp = spec_available_specs()[i];
    let st = stage_word(sp.stage);
    let fw = format_word(sp.format);
    reveal_strlit("-");
    lemma_ascii_bytes("-"@);
    lemma_utf8_concat(st, "-"@);
    lemma_utf8_concat(st + "-"@, fw);
    lemma_stage_word(sp.stage);
    lemma_format_word(sp.format);
    let b = utf8(format_string(sp));
    let n = utf8(st).len() as int;
    assert(b == utf8(st) + utf8("-"@) + utf8(fw));
    assert(b[n] == dash());
    assert forall|j: int| 0 <= j < n implies b[j] != dash() by {
        assert(b[j] == utf8(st)[j]);
    }
    assert(is_first_dash(b, n));
    let k = choose|k: int| is_first_dash(b, k);
    lemma_first_dash_unique(b, k, n);
    assert(b.subrange(0, n) =~= utf8(st));
    assert(b.subrange(n + 1, b.len() as int) =~= utf8(fw));
}

/// A text with a `-` has a first one.
proof fn lemma_first_dash_exists(b: Seq<u8>, j: int)
    requires
        0 <= j < b.len(),
        b[j] == dash(),
    ensures
        exists|k: int| is_first_dash(b, k),
    decreases j,
{
    if exists|m: int| 0 <= m < j && b[m] == dash() {
        let m = choose|m: int| 0 <= m < j && b[m] == dash();
        lemma_first_dash_exists(b, m);
    } else {
        assert(is_first_dash(b, j));
    }
}

/// The format strings that `from_string` accepts are exactly those that
/// `available_formats` lists: a string that parses names one of the
/// available specifications and is that specification's format string.
pub proof fn lemma_only_available_formats_parse(b: Seq<u8>)
    requires
        parse_format(b) is Ok,
    ensures
        spec_available_specs().contains(parse_format(b)->Ok_0),
        b == utf8(format_string(parse_format(b)->Ok_0)),
{
    let sp = parse_format(b)->Ok_0;
    let j = choose|j: int| 0 <= j < b.len() && b[j] == dash();
    lemma_first_dash_exists(b, j);
    let k = choose|k: int| is_first_dash(b, k);
    let stage_bytes = b.subrange(0, k);
    let rest = b.subrange(k + 1, b.len() as int);
    assert(stage_named(stage_bytes) == Some(sp.stage));
    assert(format_named(rest) == Some(sp.format));
    assert(stage_bytes == utf8(stage_word(sp.stage)));
    assert(rest == utf8(format_word(sp.format)));
    reveal_strlit("-");
    lemma_ascii_bytes("-"@);
    lemma_utf8_concat(stage_word(sp.stage), "-"@);
    lemma_utf8_concat(stage_word(sp.stage) + "-"@, format_word(sp.format));
    assert(utf8("-"@) =~= seq![dash()]);
    assert(b =~= stage_bytes + utf8("-"@) + rest);
    let i: int = match (sp.stage, sp.format) {
        (ProcessingStage::Token, OutputFormat::Simple) => 0,
        (ProcessingStage::Token, OutputFormat::Json) => 1,
        (ProcessingStage::Token, OutputFormat::RawSimple) => 2,
        (ProcessingStage::Token, OutputFormat::RawJson) => 3,
        (ProcessingStage::Ast, OutputFormat::AstTag) => 4,
        (ProcessingStage::Ast, OutputFormat::AstTreeviz) => 5,
        (ProcessingStage::Ast, OutputFormat::AstPosition) => 6,
        (ProcessingStage::Token, OutputFormat::TokenLine) => 7,
        (ProcessingStage::Token, OutputFormat::TokenTree) => 8,
        (ProcessingStage::Ast, OutputFormat::AstLinebasedTag) => 9,
        _ => 10,
    };
    assert(spec_available_specs()[i] == sp);
}

} // verus!
