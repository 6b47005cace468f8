//! Errors and warnings of the compiler, normalized for the Oxc tools.

use vstd::prelude::*;
use vstd::utf8::encode_utf8;

#[allow(unused_imports)]
use crate::span::{lines_fit, position_at, range_at, Span, SvelteSourcePosition};
use crate::span::SvelteSourceRange;

verus! {

/// Why the parser refused a source.
#[derive(Debug)]
pub enum ParseErrorKind {
    UnexpectedEof,
    UnexpectedToken,
    UnclosedElement,
    UnclosedBlock,
    InvalidAttribute,
    InvalidExpression,
    Generic,
    /// An error of Svelte's own list, by its code.
    SvelteError { code: String },
}

/// A refusal by the parser.
#[derive(Debug)]
pub struct ParseError {
    pub kind: ParseErrorKind,
    /// First byte that the error is about.
    pub start: usize,
    /// First byte behind what the error is about.
    pub end: usize,
    /// The error in words.
    pub message: String,
}

/// A refusal by the analysis.
#[derive(Debug)]
pub enum AnalysisError {
    Scope(String),
    Validation(String),
    Css(String),
    ValidationWithCode { code: String, message: String },
}

/// Where the transformation failed.
#[derive(Debug, Clone, Copy, PartialEq, Eq, Structural)]
pub enum TransformErrorKind {
    CodeGen,
    Css,
}

/// A failure of the transformation.
#[derive(Debug)]
pub struct TransformError {
    pub kind: TransformErrorKind,
    /// The error in words.
    pub message: String,
}

/// A warning of the compiler; it may lack either end of its place.
#[derive(Debug)]
pub struct CompileWarning {
    pub code: String,
    pub message: String,
    pub start: Option<u32>,
    pub end: Option<u32>,
}

/// Parse error for `.svelte` files.
#[derive(Debug, Clone, PartialEq, Eq)]
pub struct SvelteParseError {
    pub code: String,
    pub message: String,
    pub range: SvelteSourceRange,
}

/// Warning for `.svelte` files.
#[derive(Debug, Clone, PartialEq, Eq)]
pub struct SvelteParseWarning {
    pub code: String,
    pub message: String,
    pub range: SvelteSourceRange,
}

/// What a [`SvelteParseError`] or a [`SvelteParseWarning`] says.
pub struct DiagnosticView {
    pub code: Seq<char>,
    pub message: Seq<char>,
    pub range: SvelteSourceRange,
}

impl View for SvelteParseError {
    type V = DiagnosticView;

    open spec fn view(&self) -> DiagnosticView {
        DiagnosticView { code: self.code@, message: self.message@, range: self.range }
    }
}

impl View for SvelteParseWarning {
    type V = DiagnosticView;

    open spec fn view(&self) -> DiagnosticView {
        DiagnosticView { code: self.code@, message: self.message@, range: self.range }
    }
}

/// `n`, or the largest `u32` where `n` is larger.
pub open spec fn clamp_u32(n: int) -> u32 {
    if n <= u32::MAX {
        n as u32
    } else {
        u32::MAX
    }
}

/// The range of the whole text.
pub open spec fn whole_range(bytes: Seq<u8>) -> SvelteSourceRange {
    range_at(bytes, 0, clamp_u32(bytes.len() as int))
}

/// The code of a refusal by the parser.
pub open spec fn code_of_parse_error(kind: ParseErrorKind) -> Seq<char> {
    match kind {
        ParseErrorKind::UnexpectedEof => "unexpected_eof"@,
        ParseErrorKind::UnexpectedToken => "unexpected_token"@,
        ParseErrorKind::UnclosedElement => "unclosed_element"@,
        ParseErrorKind::UnclosedBlock => "unclosed_block"@,
        ParseErrorKind::InvalidAttribute => "invalid_attribute"@,
        ParseErrorKind::InvalidExpression => "invalid_expression"@,
        ParseErrorKind::Generic => "generic"@,
        ParseErrorKind::SvelteError { code } => code@,
    }
}

/// What is reported of a refusal by the parser.
pub open spec fn parse_failure(bytes: Seq<u8>, error: ParseError) -> DiagnosticView {
    DiagnosticView {
        code: code_of_parse_error(error.kind),
        message: error.message@,
        range: range_at(bytes, clamp_u32(error.start as int), clamp_u32(error.end as int)),
    }
}

/// What is reported of a refusal by the analysis: it is about the whole text.
pub open spec fn analysis_failure(bytes: Seq<u8>, error: AnalysisError) -> DiagnosticView {
    let (code, message) = match error {
        AnalysisError::Scope(message) => ("scope_error"@, message@),
        AnalysisError::Validation(message) => ("validation_error"@, message@),
        AnalysisError::Css(message) => ("css_error"@, message@),
        AnalysisError::ValidationWithCode { code, message } => (code@, message@),
    };
    DiagnosticView { code, message, range: whole_range(bytes) }
}

/// What is reported of a failed transformation: it is about the whole text.
pub open spec fn transform_failure(bytes: Seq<u8>, error: TransformError) -> DiagnosticView {
    DiagnosticView {
        code: match error.kind {
            TransformErrorKind::CodeGen => "codegen_error"@,
            TransformErrorKind::Css => "css_transform_error"@,
        },
        message: error.message@,
        range: whole_range(bytes),
    }
}

/// What is reported of a warning. One without a start starts with the text; one
/// without an end, or with an end before its start, is empty.
pub open spec fn warning_of(bytes: Seq<u8>, warning: CompileWarning) -> DiagnosticView {
    let start = match warning.start {
        Some(start) => start,
        None => 0,
    };
    let end = match warning.end {
        Some(end) if end > start => end,
        _ => start,
    };
    DiagnosticView {
        code: warning.code@,
        message: warning.message@,
        range: range_at(bytes, start, end),
    }
}

/// What is reported of warnings.
pub open spec fn warnings_of(
    bytes: Seq<u8>,
    warnings: Seq<CompileWarning>,
) -> Seq<DiagnosticView> {
    warnings.map_values(|warning: CompileWarning| warning_of(bytes, warning))
}

/// A diagnostic in one line: its code, a colon and a space, and its message.
pub open spec fn diagnostic_text(diagnostic: DiagnosticView) -> Seq<char> {
    diagnostic.code + ": "@ + diagnostic.message
}

/// The range of a warning never ends before it starts.
pub proof fn law_warning_range_is_ordered(bytes: Seq<u8>, warning: CompileWarning)
    ensures
        warning_of(bytes, warning).range.span.start <= warning_of(bytes, warning).range.span.end,
{
}

/// The range of a refusal by the parser ends no earlier than it starts, where
/// that holds of the refusal itself.
pub proof fn law_parse_failure_range_is_ordered(bytes: Seq<u8>, error: ParseError)
    requires
        error.start <= error.end,
    ensures
        parse_failure(bytes, error).range.span.start <= parse_failure(bytes, error).range.span.end,
{
}

/// A refusal behind the parser has the same range whatever it is about: the whole
/// text, from line one on.
pub proof fn law_later_refusals_cover_the_text(
    bytes: Seq<u8>,
    analysis: AnalysisError,
    transform: TransformError,
)
    requires
        bytes.len() <= u32::MAX,
    ensures
        analysis_failure(bytes, analysis).range == transform_failure(bytes, transform).range,
        analysis_failure(bytes, analysis).range.span == (Span {
            start: 0,
            end: bytes.len() as u32,
        }),
        analysis_failure(bytes, analysis).range.start == (SvelteSourcePosition {
            line: 1,
            column: 0,
        }),
{
}

fn clamp_to_u32(n: usize) -> (r: u32)
    ensures
        r == clamp_u32(n as int),
{
    if n <= u32::MAX as usize {
        n as u32
    } else {
        u32::MAX
    }
}

fn range_of_source(source: &str) -> (r: SvelteSourceRange)
    requires
        lines_fit(encode_utf8(source@)),
    ensures
        r == whole_range(encode_utf8(source@)),
{
    SvelteSourceRange::new(source, 0, clamp_to_u32(source.as_bytes().len()))
}

impl SvelteParseError {
    /// The error in one line.
    pub fn to_string(&self) -> (r: String)
        ensures
            r@ == diagnostic_text(self@),
    {
        let mut text = self.code.clone();
        text.append(": ");
        text.append(self.message.as_str());
        text
    }
}

/// The code of a refusal by the parser.
pub fn parse_error_code(error: &ParseError) -> (r: &str)
    ensures
        r@ == code_of_parse_error(error.kind),
{
    match &error.kind {
        ParseErrorKind::UnexpectedEof => "unexpected_eof",
        ParseErrorKind::UnexpectedToken => "unexpected_token",
        ParseErrorKind::UnclosedElement => "unclosed_element",
        ParseErrorKind::UnclosedBlock => "unclosed_block",
        ParseErrorKind::InvalidAttribute => "invalid_attribute",
        ParseErrorKind::InvalidExpression => "invalid_expression",
        ParseErrorKind::Generic => "generic",
        ParseErrorKind::SvelteError { code } => code.as_str(),
    }
}

/// Normalizes a refusal by the parser.
pub fn convert_parse_error(source: &str, error: &ParseError) -> (r: SvelteParseError)
    requires
        lines_fit(encode_utf8(source@)),
    ensures
        r@ == parse_failure(encode_utf8(source@), *error),
{
    SvelteParseError {
        code: parse_error_code(error).to_owned(),
        message: error.message.clone(),
        range: SvelteSourceRange::new(source, clamp_to_u32(error.start), clamp_to_u32(error.end)),
    }
}

/// Normalizes a refusal by the analysis.
pub fn convert_analysis_error(source: &str, error: &AnalysisError) -> (r: SvelteParseError)
    requires
        lines_fit(encode_utf8(source@)),
    ensures
        r@ == analysis_failure(encode_utf8(source@), *error),
{
    let (code, message) = match error {
        AnalysisError::Scope(message) => ("scope_error", message.as_str()),
        AnalysisError::Validation(message) => ("validation_error", message.as_str()),
        AnalysisError::Css(message) => ("css_error", message.as_str()),
        AnalysisError::ValidationWithCode { code, message } => (code.as_str(), message.as_str()),
    };
    SvelteParseError {
        code: code.to_owned(),
        message: message.to_owned(),
        range: range_of_source(source),
    }
}

/// Normalizes a failed transformation.
pub fn convert_transform_error(source: &str, error: &TransformError) -> (r: SvelteParseError)
    requires
        lines_fit(encode_utf8(source@)),
    ensures
        r@ == transform_failure(encode_utf8(source@), *error),
{
    let code = match error.kind {
        TransformErrorKind::CodeGen => "codegen_error",
        TransformErrorKind::Css => "css_transform_error",
    };
    SvelteParseError {
        code: code.to_owned(),
        message: error.message.clone(),
        range: range_of_source(source),
    }
}

/// Normalizes a warning.
pub fn convert_warning(source: &str, warning: &CompileWarning) -> (r: SvelteParseWarning)
    requires
        lines_fit(encode_utf8(source@)),
    ensures
        r@ == warning_of(encode_utf8(source@), *warning),
{
    let start: u32 = match warning.start {
        Some(start) => start,
        None => 0,
    };
    let end: u32 = match warning.end {
        Some(end) => if end > start {
            end
        } else {
            start
        },
        None => start,
    };
    SvelteParseWarning {
        code: warning.code.clone(),
        message: warning.message.clone(),
        range: SvelteSourceRange::new(source, start, end),
    }
}

/// An error and a warning say their code, their message and their range.
pub proof fn law_diagnostics_say_all_of_themselves(
    error: SvelteParseError,
    warning: SvelteParseWarning,
)
    ensures
        error@.code == error.code@,
        error@.message == error.message@,
        error@.range == error.range,
        warning@.code == warning.code@,
        warning@.message == warning.message@,
        warning@.range == warning.range,
{
}

/// A refusal by the parser keeps its message, and its place as far as a `u32` reaches.
pub proof fn law_parse_failure_keeps_message_and_place(bytes: Seq<u8>, error: ParseError)
    ensures
        ({
            let failure = parse_failure(bytes, error);
            &&& failure.message == error.message@
            &&& error.start <= u32::MAX ==> failure.range.span.start == error.start
            &&& error.start > u32::MAX ==> failure.range.span.start == u32::MAX
            &&& error.end <= u32::MAX ==> failure.range.span.end == error.end
            &&& error.end > u32::MAX ==> failure.range.span.end == u32::MAX
            &&& failure.range.start == position_at(bytes, failure.range.span.start)
            &&& failure.range.end == position_at(bytes, failure.range.span.end)
        }),
{
}

/// A refusal by the parser has the code of its kind, wherever it stands; an error of
/// Svelte's own list has its own code.
pub proof fn law_parse_failure_has_the_code_of_its_kind(bytes: Seq<u8>, error: ParseError)
    ensures
        parse_failure(bytes, error).code == code_of_parse_error(error.kind),
        error.kind is UnexpectedEof ==> code_of_parse_error(error.kind) == "unexpected_eof"@,
        error.kind is UnexpectedToken ==> code_of_parse_error(error.kind) == "unexpected_token"@,
        error.kind is UnclosedElement ==> code_of_parse_error(error.kind) == "unclosed_element"@,
        error.kind is UnclosedBlock ==> code_of_parse_error(error.kind) == "unclosed_block"@,
        error.kind is InvalidAttribute ==> code_of_parse_error(error.kind) == "invalid_attribute"@,
        error.kind is InvalidExpression ==> code_of_parse_error(error.kind)
            == "invalid_expression"@,
        error.kind is Generic ==> code_of_parse_error(error.kind) == "generic"@,
        error.kind is SvelteError ==> code_of_parse_error(error.kind)
            == error.kind->SvelteError_code@,
{
}

/// A refusal by the analysis keeps its message, and has its own code or that of its
/// kind.
pub proof fn law_analysis_failure_keeps_code_and_message(
    bytes: Seq<u8>,
    text: String,
    code: String,
)
    ensures
        ({
            let scope = analysis_failure(bytes, AnalysisError::Scope(text));
            let validation = analysis_failure(bytes, AnalysisError::Validation(text));
            let css = analysis_failure(bytes, AnalysisError::Css(text));
            let coded = analysis_failure(
                bytes,
                AnalysisError::ValidationWithCode { code, message: text },
            );
            &&& scope.code == "scope_error"@ && scope.message == text@
            &&& validation.code == "validation_error"@ && validation.message == text@
            &&& css.code == "css_error"@ && css.message == text@
            &&& coded.code == code@ && coded.message == text@
        }),
{
}

/// A failed transformation keeps its message and has the code of its kind.
pub proof fn law_transform_failure_keeps_code_and_message(bytes: Seq<u8>, error: TransformError)
    ensures
        transform_failure(bytes, error).message == error.message@,
        error.kind == TransformErrorKind::CodeGen ==> transform_failure(bytes, error).code
            == "codegen_error"@,
        error.kind == TransformErrorKind::Css ==> transform_failure(bytes, error).code
            == "css_transform_error"@,
{
}

/// A refusal behind the parser runs from the start of the text to its end, or as far
/// as a `u32` reaches.
pub proof fn law_later_refusals_run_through_the_text(
    bytes: Seq<u8>,
    analysis: AnalysisError,
    transform: TransformError,
)
    ensures
        ({
            let range = analysis_failure(bytes, analysis).range;
            &&& transform_failure(bytes, transform).range == range
            &&& range.span.start == 0
            &&& bytes.len() <= u32::MAX ==> range.span.end == bytes.len()
            &&& bytes.len() > u32::MAX ==> range.span.end == u32::MAX
            &&& range.start == position_at(bytes, 0)
            &&& range.end == position_at(bytes, range.span.end)
        }),
{
}

/// A warning keeps its code and message. It starts where it says, or else with the
/// text; it ends where it says, but never before it starts.
pub proof fn law_warning_keeps_what_it_says(bytes: Seq<u8>, warning: CompileWarning)
    ensures
        ({
            let kept = warning_of(bytes, warning);
            &&& kept.code == warning.code@
            &&& kept.message == warning.message@
            &&& warning.start is Some ==> kept.range.span.start == warning.start->0
            &&& warning.start is None ==> kept.range.span.start == 0
            &&& warning.end is None ==> kept.range.span.end == kept.range.span.start
            &&& warning.end is Some && warning.end->0 >= kept.range.span.start
                ==> kept.range.span.end == warning.end->0
            &&& warning.end is Some && warning.end->0 < kept.range.span.start
                ==> kept.range.span.end == kept.range.span.start
            &&& kept.range.start == position_at(bytes, kept.range.span.start)
            &&& kept.range.end == position_at(bytes, kept.range.span.end)
        }),
{
}

/// Each warning is reported once, in the order in which they come.
pub proof fn law_warnings_are_reported_one_by_one(
    bytes: Seq<u8>,
    warnings: Seq<CompileWarning>,
    i: int,
)
    ensures
        warnings_of(bytes, warnings).len() == warnings.len(),
        0 <= i < warnings.len() ==> warnings_of(bytes, warnings)[i] == warning_of(
            bytes,
            warnings[i],
        ),
{
}

/// A diagnostic in one line starts with its code and ends with its message, with a
/// colon and a space between them.
pub proof fn law_diagnostic_text_joins_code_and_message(diagnostic: DiagnosticView)
    ensures
        ({
            let text = diagnostic_text(diagnostic);
            let n = diagnostic.code.len() as int;
            &&& text.len() == n + 2 + diagnostic.message.len()
            &&& text.take(n) == diagnostic.code
            &&& text[n] == ':' && text[n + 1] == ' '
            &&& text.skip(n + 2) == diagnostic.message
        }),
{
    reveal_strlit(": ");
    let text = diagnostic_text(diagnostic);
    let n = diagnostic.code.len() as int;
    assert(text.take(n) =~= diagnostic.code);
    assert(text.skip(n + 2) =~= diagnostic.message);
}

} // verus!
