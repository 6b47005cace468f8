use oxc_svelte_backend::ast::{Fragment, Root};
use oxc_svelte_backend::compiler::{AnalyzedComponent, CompilerRun};
use oxc_svelte_backend::diagnostic::{
    convert_analysis_error, convert_parse_error, convert_transform_error, convert_warning,
    parse_error_code, AnalysisError, CompileWarning, ParseError, ParseErrorKind, TransformError,
    TransformErrorKind,
};
use oxc_svelte_backend::semantic::ComponentAnalysis;
use oxc_svelte_backend::{
    parse_svelte, parse_svelte_for_lint, parse_svelte_summary, parse_svelte_syntax, Span,
    SvelteParseSummary,
};

fn parse_error(kind: ParseErrorKind, start: usize, end: usize) -> ParseError {
    ParseError { kind, start, end, message: "message".to_string() }
}

fn component() -> Root {
    Root {
        fragment: Fragment { nodes: vec![] },
        comments: vec![],
        instance: None,
        module: None,
    }
}

fn analyzed() -> CompilerRun {
    let analysis = ComponentAnalysis {
        bindings: vec![],
        runes: false,
        uses_props: false,
        uses_rest_props: false,
        uses_slots: false,
    };
    CompilerRun::Unstarted
        .record_parse(Ok(component()))
        .record_analysis(Ok(AnalyzedComponent { root: component(), analysis }))
}

fn warning(start: Option<u32>, end: Option<u32>) -> CompileWarning {
    CompileWarning { code: "code".to_string(), message: "message".to_string(), start, end }
}

#[test]
fn every_parse_error_has_a_code() {
    let code = |kind| parse_error_code(&parse_error(kind, 0, 0)).to_string();
    assert_eq!(code(ParseErrorKind::UnexpectedEof), "unexpected_eof");
    assert_eq!(code(ParseErrorKind::UnexpectedToken), "unexpected_token");
    assert_eq!(code(ParseErrorKind::UnclosedElement), "unclosed_element");
    assert_eq!(code(ParseErrorKind::UnclosedBlock), "unclosed_block");
    assert_eq!(code(ParseErrorKind::InvalidAttribute), "invalid_attribute");
    assert_eq!(code(ParseErrorKind::InvalidExpression), "invalid_expression");
    assert_eq!(code(ParseErrorKind::Generic), "generic");
    assert_eq!(code(ParseErrorKind::SvelteError { code: "own".to_string() }), "own");
}

#[test]
fn parse_errors_keep_their_place() {
    let error = convert_parse_error("a\nbc", &parse_error(ParseErrorKind::Generic, 2, 3));
    assert_eq!(error.code, "generic");
    assert_eq!(error.message, "message");
    assert_eq!(error.range.span, Span::new(2, 3));
    assert_eq!(error.range.start.line, 2);
}

#[test]
fn parse_errors_far_away_are_clamped() {
    let far = parse_error(ParseErrorKind::UnexpectedEof, usize::MAX - 1, usize::MAX);
    let error = convert_parse_error("a", &far);
    assert_eq!(error.range.span, Span::new(u32::MAX, u32::MAX));
    assert_eq!((error.range.end.line, error.range.end.column), (1, 1));
}

#[test]
fn every_analysis_error_covers_the_source() {
    let source = "ab\nc";
    let errors = [
        (AnalysisError::Scope("m".to_string()), "scope_error"),
        (AnalysisError::Validation("m".to_string()), "validation_error"),
        (AnalysisError::Css("m".to_string()), "css_error"),
        (
            AnalysisError::ValidationWithCode { code: "own".to_string(), message: "m".to_string() },
            "own",
        ),
    ];
    for (error, code) in errors {
        let converted = convert_analysis_error(source, &error);
        assert_eq!(converted.code, code);
        assert_eq!(converted.message, "m");
        assert_eq!(converted.range.span, Span::new(0, 4));
        assert_eq!((converted.range.end.line, converted.range.end.column), (2, 1));
    }
}

#[test]
fn every_transform_error_covers_the_source() {
    let errors = [
        (TransformErrorKind::CodeGen, "codegen_error"),
        (TransformErrorKind::Css, "css_transform_error"),
    ];
    for (kind, code) in errors {
        let error = TransformError { kind, message: "m".to_string() };
        let converted = convert_transform_error("abc", &error);
        assert_eq!(converted.code, code);
        assert_eq!(converted.message, "m");
        assert_eq!(converted.range.span, Span::new(0, 3));
    }
}

#[test]
fn warnings_never_end_before_they_start() {
    let span = |start, end| convert_warning("0123456789", &warning(start, end)).range.span;
    assert_eq!(span(Some(2), Some(5)), Span::new(2, 5));
    assert_eq!(span(Some(5), Some(2)), Span::new(5, 5));
    assert_eq!(span(Some(5), None), Span::new(5, 5));
    assert_eq!(span(None, Some(5)), Span::new(0, 5));
    assert_eq!(span(None, None), Span::new(0, 0));
}

#[test]
fn errors_are_written_in_one_line() {
    let error = convert_analysis_error("", &AnalysisError::Scope("bad scope".to_string()));
    assert_eq!(error.to_string(), "scope_error: bad scope");
}

#[test]
fn the_parser_refuses_for_every_goal_alike() {
    let refusal = || {
        CompilerRun::Unstarted.record_parse(Err(parse_error(ParseErrorKind::UnclosedBlock, 0, 1)))
    };
    let whole = parse_svelte("{#if}", &refusal()).unwrap_err();
    assert_eq!(whole.code, "unclosed_block");
    assert_eq!(parse_svelte_syntax("{#if}", &refusal()).unwrap_err(), whole);
    assert_eq!(parse_svelte_for_lint("{#if}", &refusal()).unwrap_err(), whole);
    assert_eq!(
        parse_svelte_summary("{#if}", &refusal()).unwrap_err(),
        "unclosed_block: message"
    );
}

#[test]
fn the_analysis_refuses_only_the_whole_component() {
    let refusal = || {
        CompilerRun::Unstarted
            .record_parse(Ok(component()))
            .record_analysis(Err(AnalysisError::Css("bad".to_string())))
    };
    assert_eq!(parse_svelte("x", &refusal()).unwrap_err().code, "css_error");
    assert!(parse_svelte_syntax("x", &refusal()).is_ok());
    let (payload, semantic) = parse_svelte_for_lint("x", &refusal()).unwrap();
    assert!(payload.warnings.is_empty());
    assert_eq!(semantic, None);
}

#[test]
fn the_transformation_refuses_the_whole_component() {
    let error = TransformError { kind: TransformErrorKind::Css, message: "bad".to_string() };
    let run = analyzed().record_transform(Err(error));
    assert_eq!(parse_svelte_summary("x", &run).unwrap_err(), "css_transform_error: bad");
}

#[test]
fn the_whole_component_adds_only_warnings_to_the_syntax() {
    let run = analyzed().record_transform(Ok(vec![warning(Some(0), Some(1)), warning(None, None)]));
    let whole = parse_svelte("x", &run).unwrap();
    let mut syntax = parse_svelte_syntax("x", &run).unwrap();
    assert!(syntax.warnings.is_empty());
    assert_eq!(whole.warnings.len(), 2);
    syntax.warnings = whole.warnings.clone();
    assert_eq!(whole, syntax);
    assert_eq!(
        parse_svelte_summary("x", &run).unwrap(),
        SvelteParseSummary {
            has_instance_script: false,
            has_module_script: false,
            top_level_node_count: 0,
            comment_count: 0,
            warning_count: 2,
        }
    );
}

#[test]
fn linting_gets_the_syntax_and_facts_where_analyzed() {
    let run = analyzed();
    let syntax = parse_svelte_syntax("x", &run).unwrap();
    let (payload, semantic) = parse_svelte_for_lint("x", &run).unwrap();
    assert_eq!(payload, syntax);
    assert!(payload.warnings.is_empty());
    assert!(semantic.is_some());
}

#[test]
fn later_refusals_cover_the_source_whatever_the_syntax() {
    let source = "a\nb";
    let analysis = CompilerRun::Unstarted
        .record_parse(Ok(component()))
        .record_analysis(Err(AnalysisError::Scope("bad".to_string())));
    let error = TransformError { kind: TransformErrorKind::CodeGen, message: "bad".to_string() };
    let transform = analyzed().record_transform(Err(error));
    for run in [analysis, transform] {
        assert!(parse_svelte_syntax(source, &run).is_ok());
        let error = parse_svelte(source, &run).unwrap_err();
        assert_eq!(error.range.span, Span::new(0, 3));
        let line = parse_svelte_summary(source, &run).unwrap_err();
        assert_eq!(line, format!("{}: {}", error.code, error.message));
    }
}
