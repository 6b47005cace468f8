//! The parse entry points.

use vstd::prelude::*;
use vstd::pervasive::unreached;
use vstd::utf8::encode_utf8;

#[allow(unused_imports)]
use crate::ast::Root;
#[allow(unused_imports)]
use crate::comment::html_comments;
use crate::compiler::CompilerRun;
#[allow(unused_imports)]
use crate::compiler::{AnalyzedComponent, CompilerGoal};
use crate::diagnostic::{
    convert_analysis_error, convert_parse_error, convert_transform_error, convert_warning,
    CompileWarning, DiagnosticView, SvelteParseError, SvelteParseWarning,
};
#[allow(unused_imports)]
use crate::diagnostic::{
    analysis_failure, diagnostic_text, parse_failure, transform_failure, warning_of, warnings_of,
    AnalysisError, ParseError, TransformError,
};
#[allow(unused_imports)]
use crate::order::views;
use crate::payload::{build_parse_result, ParseResultView, SvelteParseResult};
#[allow(unused_imports)]
use crate::payload::{
    law_payload_comments_in_source_order, law_payload_scripts_in_source_order, payload_of,
    scripts_by_kind,
};
use crate::script::{SvelteScript, SvelteScriptKind};
use crate::semantic::{build_semantic_summary, SvelteSemanticSummary};
#[allow(unused_imports)]
use crate::semantic::is_summary_of;
#[allow(unused_imports)]
use crate::span::{lines_fit, Span};

verus! {

/// Small, stable parse summary.
#[derive(Debug, Clone, Copy, PartialEq, Eq, Structural)]
pub struct SvelteParseSummary {
    pub has_instance_script: bool,
    pub has_module_script: bool,
    pub top_level_node_count: usize,
    pub comment_count: usize,
    pub warning_count: usize,
}

/// What a parse reports: a payload or an error.
pub open spec fn report(r: Result<SvelteParseResult, SvelteParseError>) -> Result<
    ParseResultView,
    DiagnosticView,
> {
    match r {
        Ok(payload) => Ok(payload@),
        Err(error) => Err(error@),
    }
}

/// What is reported of the syntax of a component: only the parser can refuse it.
pub open spec fn syntax_report(bytes: Seq<u8>, run: CompilerRun) -> Result<
    ParseResultView,
    DiagnosticView,
>
    recommends
        !(run is Unstarted),
{
    match run {
        CompilerRun::ParseFailed(error) => Err(parse_failure(bytes, error)),
        CompilerRun::Parsed(root)
        | CompilerRun::AnalysisFailed(root, _)
        | CompilerRun::Analyzed(root, _)
        | CompilerRun::TransformFailed(root, _)
        | CompilerRun::Transformed(root, _) => Ok(payload_of(bytes, root)),
        CompilerRun::Unstarted => arbitrary(),
    }
}

/// What is reported of a whole component: the first phase that refuses it
/// decides; where none does, the payload has the warnings of the compiler.
pub open spec fn component_report(bytes: Seq<u8>, run: CompilerRun) -> Result<
    ParseResultView,
    DiagnosticView,
>
    recommends
        run.finished(CompilerGoal::Component),
{
    match run {
        CompilerRun::ParseFailed(error) => Err(parse_failure(bytes, error)),
        CompilerRun::AnalysisFailed(_, error) => Err(analysis_failure(bytes, error)),
        CompilerRun::TransformFailed(_, error) => Err(transform_failure(bytes, error)),
        CompilerRun::Transformed(root, warnings) => Ok(
            ParseResultView {
                warnings: warnings_of(bytes, warnings@),
                ..payload_of(bytes, root)
            },
        ),
        _ => arbitrary(),
    }
}

/// Whether a script block of `kind` is among `scripts`.
pub open spec fn has_kind(scripts: Seq<SvelteScript>, kind: SvelteScriptKind) -> bool {
    exists|i: int| 0 <= i < scripts.len() && (#[trigger] scripts[i]).kind == kind
}

/// The summary of a payload.
pub open spec fn summary_of(payload: ParseResultView) -> SvelteParseSummary {
    SvelteParseSummary {
        has_instance_script: has_kind(payload.scripts, SvelteScriptKind::Instance),
        has_module_script: has_kind(payload.scripts, SvelteScriptKind::Module),
        top_level_node_count: payload.top_level_node_count,
        comment_count: payload.comments.len() as usize,
        warning_count: payload.warnings.len() as usize,
    }
}

/// Whether `r` is what is reported for linting: the report on the syntax, and the
/// facts of the component where the analysis accepts it.
pub open spec fn is_lint_report(
    bytes: Seq<u8>,
    run: CompilerRun,
    r: Result<(SvelteParseResult, Option<SvelteSemanticSummary>), SvelteParseError>,
) -> bool {
    match r {
        Ok((payload, semantic)) => {
            &&& syntax_report(bytes, run) == Ok::<ParseResultView, DiagnosticView>(payload@)
            &&& match run {
                CompilerRun::Analyzed(_, analyzed) => semantic is Some && is_summary_of(
                    bytes,
                    analyzed.analysis,
                    analyzed.root,
                    payload.scripts@,
                    semantic->0,
                ),
                _ => semantic is None,
            }
        },
        Err(error) => syntax_report(bytes, run) == Err::<ParseResultView, DiagnosticView>(error@),
    }
}

/// Whether `r` is the report on the whole component in short: the summary of the
/// payload, or the error in one line.
pub open spec fn is_summary_report(
    bytes: Seq<u8>,
    run: CompilerRun,
    r: Result<SvelteParseSummary, String>,
) -> bool {
    match component_report(bytes, run) {
        Ok(payload) => r == Ok::<SvelteParseSummary, String>(summary_of(payload)),
        Err(error) => r is Err && r->Err_0@ == diagnostic_text(error),
    }
}

/// Where the whole component has a payload, its syntax has the same one but for
/// the warnings, of which the syntax has none.
pub proof fn law_component_payload_extends_syntax(bytes: Seq<u8>, run: CompilerRun)
    requires
        run.finished(CompilerGoal::Component),
        component_report(bytes, run) is Ok,
    ensures
        syntax_report(bytes, run) is Ok,
        ({
            let whole = component_report(bytes, run)->Ok_0;
            let syntax = syntax_report(bytes, run)->Ok_0;
            &&& syntax.warnings == Seq::<DiagnosticView>::empty()
            &&& whole == (ParseResultView { warnings: whole.warnings, ..syntax })
        }),
{
}

/// A refusal by the parser is reported alike for every goal, and only such a
/// refusal is reported for the syntax alone.
pub proof fn law_parse_failure_is_common(bytes: Seq<u8>, run: CompilerRun)
    requires
        !(run is Unstarted),
    ensures
        syntax_report(bytes, run) is Err <==> run is ParseFailed,
        run is ParseFailed ==> component_report(bytes, run) == syntax_report(bytes, run),
{
}

/// A report on the syntax has no warnings.
pub proof fn law_syntax_has_no_warnings(bytes: Seq<u8>, run: CompilerRun)
    requires
        !(run is Unstarted),
    ensures
        syntax_report(bytes, run) matches Ok(payload) ==> payload.warnings.len() == 0,
{
}

/// Of one run, the whole component is reported as its syntax is, but for two
/// things: it has warnings, and a later phase may refuse it, which is then said of
/// the whole text.
pub proof fn law_parse_agrees_with_syntax(
    bytes: Seq<u8>,
    run: CompilerRun,
    syntax: Result<SvelteParseResult, SvelteParseError>,
    whole: Result<SvelteParseResult, SvelteParseError>,
)
    requires
        run.finished(CompilerGoal::Component),
        bytes.len() <= u32::MAX,
        report(syntax) == syntax_report(bytes, run),
        report(whole) == component_report(bytes, run),
    ensures
        syntax is Err ==> whole is Err && whole->Err_0@ == syntax->Err_0@,
        syntax is Ok && whole is Ok ==> {
            &&& whole->Ok_0.scripts@ == syntax->Ok_0.scripts@
            &&& views(whole->Ok_0.comments@) == views(syntax->Ok_0.comments@)
            &&& whole->Ok_0.top_level_node_count == syntax->Ok_0.top_level_node_count
        },
        syntax is Ok && whole is Err ==> whole->Err_0.range.span == (Span {
            start: 0,
            end: bytes.len() as u32,
        }),
{
    if syntax is Ok && whole is Ok {
        assert(whole->Ok_0@.scripts == syntax->Ok_0@.scripts);
        assert(whole->Ok_0@.comments == syntax->Ok_0@.comments);
        assert(whole->Ok_0@.top_level_node_count == syntax->Ok_0@.top_level_node_count);
    }
    if whole is Err {
        assert(whole->Err_0@.range == component_report(bytes, run)->Err_0.range);
    }
}

/// Of one run, linting gets what is reported of the syntax, without warnings.
/// There are facts of the component if and only if the analysis accepts it; a
/// refusal by the analysis is no error here.
pub proof fn law_lint_agrees_with_syntax(
    bytes: Seq<u8>,
    run: CompilerRun,
    syntax: Result<SvelteParseResult, SvelteParseError>,
    lint: Result<(SvelteParseResult, Option<SvelteSemanticSummary>), SvelteParseError>,
)
    requires
        run.finished(CompilerGoal::Lint),
        report(syntax) == syntax_report(bytes, run),
        is_lint_report(bytes, run, lint),
    ensures
        lint is Err <==> syntax is Err,
        lint is Err <==> run is ParseFailed,
        lint is Err ==> lint->Err_0@ == syntax->Err_0@,
        lint is Ok ==> lint->Ok_0.0@ == syntax->Ok_0@ && lint->Ok_0.0.warnings@.len() == 0,
        lint is Ok ==> (lint->Ok_0.1 is Some <==> run is Analyzed),
{
    if lint is Ok {
        assert(lint->Ok_0.0@.warnings.len() == 0);
    }
}

/// Of one run, the summary says of a payload what is in it, and of an error its
/// code and message.
pub proof fn law_summary_agrees_with_parse(
    bytes: Seq<u8>,
    run: CompilerRun,
    whole: Result<SvelteParseResult, SvelteParseError>,
    summary: Result<SvelteParseSummary, String>,
)
    requires
        report(whole) == component_report(bytes, run),
        is_summary_report(bytes, run, summary),
    ensures
        summary is Err <==> whole is Err,
        whole is Err ==> summary->Err_0@ == whole->Err_0.code@ + ": "@ + whole->Err_0.message@,
        whole is Ok ==> {
            let payload = whole->Ok_0;
            let s = summary->Ok_0;
            &&& s.has_instance_script <==> has_kind(payload.scripts@, SvelteScriptKind::Instance)
            &&& s.has_module_script <==> has_kind(payload.scripts@, SvelteScriptKind::Module)
            &&& s.top_level_node_count == payload.top_level_node_count
            &&& s.comment_count == payload.comments@.len()
            &&& s.warning_count == payload.warnings@.len()
        },
{
    if let Ok(payload) = whole {
        assert(payload.comments.len() == payload@.comments.len());
        assert(payload.warnings.len() == payload@.warnings.len());
    }
}

/// The summary of a payload tells which script blocks the component has, and
/// counts all of its comments.
pub proof fn law_summary_tells_what_the_component_has(bytes: Seq<u8>, root: Root)
    requires
        root.comments@.len() + html_comments(bytes, root.fragment).len() <= usize::MAX,
    ensures
        summary_of(payload_of(bytes, root)).has_instance_script == (root.instance is Some),
        summary_of(payload_of(bytes, root)).has_module_script == (root.module is Some),
        summary_of(payload_of(bytes, root)).top_level_node_count == root.fragment.nodes@.len(),
        summary_of(payload_of(bytes, root)).comment_count == root.comments@.len() + html_comments(
            bytes,
            root.fragment,
        ).len(),
{
    let listed = payload_of(bytes, root).scripts;
    let all = scripts_by_kind(bytes, root);
    assert forall|kind: SvelteScriptKind| #[trigger] has_kind(listed, kind) == has_kind(
        all,
        kind,
    ) by {
        if has_kind(listed, kind) {
            let i = choose|i: int| 0 <= i < listed.len() && (#[trigger] listed[i]).kind == kind;
            law_payload_scripts_in_source_order(bytes, root, listed[i]);
            assert(listed.contains(listed[i]));
            let j = choose|j: int| 0 <= j < all.len() && all[j] == listed[i];
            assert(all[j].kind == kind);
        }
        if has_kind(all, kind) {
            let i = choose|i: int| 0 <= i < all.len() && (#[trigger] all[i]).kind == kind;
            law_payload_scripts_in_source_order(bytes, root, all[i]);
            assert(all.contains(all[i]));
            let j = choose|j: int| 0 <= j < listed.len() && listed[j] == all[i];
            assert(listed[j].kind == kind);
        }
    }
    if root.module is Some {
        assert(all[0].kind == SvelteScriptKind::Module);
    }
    if root.instance is Some {
        assert(all[all.len() - 1].kind == SvelteScriptKind::Instance);
    }
    law_payload_comments_in_source_order(bytes, root, arbitrary());
    assert(root.fragment.nodes.len() == root.fragment.nodes@.len());
}

/// Parses a component and returns the payload with all warnings of the compiler.
pub fn parse_svelte(source: &str, run: &CompilerRun) -> (r: Result<
    SvelteParseResult,
    SvelteParseError,
>)
    requires
        lines_fit(encode_utf8(source@)),
        run.well_formed(),
        run.finished(CompilerGoal::Component),
    ensures
        report(r) == component_report(encode_utf8(source@), *run),
{
    match run {
        CompilerRun::ParseFailed(error) => Err(convert_parse_error(source, error)),
        CompilerRun::AnalysisFailed(_, error) => Err(convert_analysis_error(source, error)),
        CompilerRun::TransformFailed(_, error) => Err(convert_transform_error(source, error)),
        CompilerRun::Transformed(root, warnings) => {
            let mut result = build_parse_result(source, root);
            result.warnings = convert_warnings(source, warnings);
            Ok(result)
        },
        CompilerRun::Unstarted | CompilerRun::Parsed(_) | CompilerRun::Analyzed(..) => unreached(),
    }
}

fn convert_warnings(source: &str, warnings: &Vec<CompileWarning>) -> (r: Vec<SvelteParseWarning>)
    requires
        lines_fit(encode_utf8(source@)),
    ensures
        views(r@) == warnings_of(encode_utf8(source@), warnings@),
{
    let ghost bytes = encode_utf8(source@);
    let mut converted: Vec<SvelteParseWarning> = Vec::new();
    let mut index: usize = 0;
    while index < warnings.len()
        invariant
            index <= warnings@.len(),
            bytes == encode_utf8(source@),
            lines_fit(bytes),
            views(converted@) =~= warnings_of(bytes, warnings@.take(index as int)),
        decreases warnings@.len() - index,
    {
        let warning = convert_warning(source, &warnings[index]);
        let ghost done = warnings@.take(index as int);
        proof {
            assert(warnings@.take(index + 1) =~= done.push(warnings@[index as int]));
            assert(warnings_of(bytes, warnings@.take(index + 1)) =~= warnings_of(bytes, done).push(
                warning@,
            ));
            assert(views(converted@.push(warning)) =~= views(converted@).push(warning@));
        }
        converted.push(warning);
        index = index + 1;
    }
    assert(warnings@.take(index as int) =~= warnings@);
    converted
}

/// Parses the syntax of a component, without the compiler's own checks.
///
/// Scripts and comments come out for linting; what the compiler has to say is
/// left to configured lint rules.
pub fn parse_svelte_syntax(source: &str, run: &CompilerRun) -> (r: Result<
    SvelteParseResult,
    SvelteParseError,
>)
    requires
        lines_fit(encode_utf8(source@)),
        run.well_formed(),
        !(run is Unstarted),
    ensures
        report(r) == syntax_report(encode_utf8(source@), *run),
{
    match run {
        CompilerRun::ParseFailed(error) => Err(convert_parse_error(source, error)),
        CompilerRun::Parsed(root)
        | CompilerRun::AnalysisFailed(root, _)
        | CompilerRun::Analyzed(root, _)
        | CompilerRun::TransformFailed(root, _)
        | CompilerRun::Transformed(root, _) => Ok(build_parse_result(source, root)),
        CompilerRun::Unstarted => unreached(),
    }
}

/// Parses a component and keeps component-wide facts for linting.
///
/// Where the analysis refuses the component there are no such facts; syntax
/// diagnostics and lint rules that need no component-wide scopes still work.
pub fn parse_svelte_for_lint(source: &str, run: &CompilerRun) -> (r: Result<
    (SvelteParseResult, Option<SvelteSemanticSummary>),
    SvelteParseError,
>)
    requires
        lines_fit(encode_utf8(source@)),
        run.well_formed(),
        run.finished(CompilerGoal::Lint),
    ensures
        is_lint_report(encode_utf8(source@), *run, r),
{
    match parse_svelte_syntax(source, run) {
        Ok(parsed) => {
            let semantic = match run {
                CompilerRun::Analyzed(_, analyzed) => Some(
                    build_semantic_summary(
                        source,
                        &analyzed.analysis,
                        &analyzed.root,
                        &parsed.scripts,
                    ),
                ),
                _ => None,
            };
            Ok((parsed, semantic))
        },
        Err(error) => Err(error),
    }
}

fn has_script_of(scripts: &Vec<SvelteScript>, kind: SvelteScriptKind) -> (r: bool)
    ensures
        r == has_kind(scripts@, kind),
{
    let mut index: usize = 0;
    while index < scripts.len()
        invariant
            index <= scripts@.len(),
            forall|j: int| 0 <= j < index ==> (#[trigger] scripts@[j]).kind != kind,
        decreases scripts@.len() - index,
    {
        if scripts[index].kind == kind {
            return true;
        }
        index = index + 1;
    }
    false
}

/// Summarizes a payload.
pub fn summarize(parsed: &SvelteParseResult) -> (r: SvelteParseSummary)
    ensures
        r == summary_of(parsed@),
{
    SvelteParseSummary {
        has_instance_script: has_script_of(&parsed.scripts, SvelteScriptKind::Instance),
        has_module_script: has_script_of(&parsed.scripts, SvelteScriptKind::Module),
        top_level_node_count: parsed.top_level_node_count,
        comment_count: parsed.comments.len(),
        warning_count: parsed.warnings.len(),
    }
}

/// Parses a component and returns a minimal summary, or the error in one line.
pub fn parse_svelte_summary(source: &str, run: &CompilerRun) -> (r: Result<
    SvelteParseSummary,
    String,
>)
    requires
        lines_fit(encode_utf8(source@)),
        run.well_formed(),
        run.finished(CompilerGoal::Component),
    ensures
        is_summary_report(encode_utf8(source@), *run, r),
{
    match parse_svelte(source, run) {
        Ok(parsed) => Ok(summarize(&parsed)),
        Err(error) => Err(error.to_string()),
    }
}

/// A report tells a payload from an error and keeps all that either says.
pub proof fn law_report_keeps_the_result(payload: SvelteParseResult, error: SvelteParseError)
    ensures
        report(Ok(payload)) == Ok::<ParseResultView, DiagnosticView>(payload@),
        report(Err(error)) == Err::<ParseResultView, DiagnosticView>(error@),
{
}

/// Whatever the later phases answered, the report on the syntax is the payload of
/// the parsed component, or the refusal by the parser.
pub proof fn law_syntax_report_depends_on_the_parser_alone(
    bytes: Seq<u8>,
    root: Root,
    analyzed: AnalyzedComponent,
    warnings: Vec<CompileWarning>,
    parse_error: ParseError,
    analysis_error: AnalysisError,
    transform_error: TransformError,
)
    ensures
        syntax_report(bytes, CompilerRun::ParseFailed(parse_error)) == Err::<
            ParseResultView,
            DiagnosticView,
        >(parse_failure(bytes, parse_error)),
        ({
            let payload = Ok::<ParseResultView, DiagnosticView>(payload_of(bytes, root));
            &&& syntax_report(bytes, CompilerRun::Parsed(root)) == payload
            &&& syntax_report(bytes, CompilerRun::AnalysisFailed(root, analysis_error)) == payload
            &&& syntax_report(bytes, CompilerRun::Analyzed(root, analyzed)) == payload
            &&& syntax_report(bytes, CompilerRun::TransformFailed(root, transform_error)) == payload
            &&& syntax_report(bytes, CompilerRun::Transformed(root, warnings)) == payload
        }),
{
}

/// Each phase that refuses the component is reported by its own error.
pub proof fn law_component_report_has_the_error_of_the_phase(
    bytes: Seq<u8>,
    root: Root,
    parse_error: ParseError,
    analysis_error: AnalysisError,
    transform_error: TransformError,
)
    ensures
        component_report(bytes, CompilerRun::ParseFailed(parse_error)) == Err::<
            ParseResultView,
            DiagnosticView,
        >(parse_failure(bytes, parse_error)),
        component_report(bytes, CompilerRun::AnalysisFailed(root, analysis_error)) == Err::<
            ParseResultView,
            DiagnosticView,
        >(analysis_failure(bytes, analysis_error)),
        component_report(bytes, CompilerRun::TransformFailed(root, transform_error)) == Err::<
            ParseResultView,
            DiagnosticView,
        >(transform_failure(bytes, transform_error)),
{
}

/// A component that no phase refuses is reported with the scripts, comments and node
/// count of its syntax, and with every warning of the compiler, each once and in
/// order.
pub proof fn law_component_report_has_every_warning(
    bytes: Seq<u8>,
    root: Root,
    warnings: Vec<CompileWarning>,
    i: int,
)
    ensures
        ({
            let whole = component_report(bytes, CompilerRun::Transformed(root, warnings));
            &&& whole is Ok
            &&& whole->Ok_0.scripts == payload_of(bytes, root).scripts
            &&& whole->Ok_0.comments == payload_of(bytes, root).comments
            &&& whole->Ok_0.top_level_node_count == root.fragment.nodes@.len()
            &&& whole->Ok_0.warnings.len() == warnings@.len()
            &&& 0 <= i < warnings@.len() ==> whole->Ok_0.warnings[i] == warning_of(
                bytes,
                warnings@[i],
            )
        }),
{
    assert(root.fragment.nodes.len() == root.fragment.nodes@.len());
}

/// The summary tells of each kind whether any script, wherever in the list, is of it,
/// and counts nodes, comments and warnings.
pub proof fn law_summary_looks_at_every_script(payload: SvelteParseResult)
    ensures
        ({
            let s = summary_of(payload@);
            &&& s.has_instance_script <==> exists|i: int|
                0 <= i < payload.scripts@.len() && (#[trigger] payload.scripts@[i]).kind
                    == SvelteScriptKind::Instance
            &&& s.has_module_script <==> exists|i: int|
                0 <= i < payload.scripts@.len() && (#[trigger] payload.scripts@[i]).kind
                    == SvelteScriptKind::Module
            &&& s.top_level_node_count == payload.top_level_node_count
            &&& s.comment_count == payload.comments@.len()
            &&& s.warning_count == payload.warnings@.len()
        }),
{
    assert(payload.comments.len() == payload@.comments.len());
    assert(payload.warnings.len() == payload@.warnings.len());
}

/// The summary of a run is that of its payload, and its error the text of its error.
pub proof fn law_summary_report_follows_the_run(
    bytes: Seq<u8>,
    run: CompilerRun,
    r: Result<SvelteParseSummary, String>,
)
    requires
        is_summary_report(bytes, run, r),
    ensures
        r is Ok <==> component_report(bytes, run) is Ok,
        r is Ok ==> r->Ok_0 == summary_of(component_report(bytes, run)->Ok_0),
        r is Err ==> r->Err_0@ == diagnostic_text(component_report(bytes, run)->Err_0),
{
}

/// Linting gets the facts of the component as the analysis left it, together with the
/// scripts of the payload.
pub proof fn law_lint_facts_are_those_of_the_analysis(
    bytes: Seq<u8>,
    root: Root,
    analyzed: AnalyzedComponent,
    lint: Result<(SvelteParseResult, Option<SvelteSemanticSummary>), SvelteParseError>,
)
    requires
        is_lint_report(bytes, CompilerRun::Analyzed(root, analyzed), lint),
    ensures
        lint is Ok,
        lint->Ok_0.0@ == payload_of(bytes, root),
        lint->Ok_0.1 is Some,
        is_summary_of(
            bytes,
            analyzed.analysis,
            analyzed.root,
            payload_of(bytes, root).scripts,
            lint->Ok_0.1->0,
        ),
{
}

} // verus!
