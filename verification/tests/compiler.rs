use oxc_svelte_backend::ast::{Fragment, Root};
use oxc_svelte_backend::compiler::{
    AnalyzedComponent, CompilerGoal, CompilerPhase, CompilerRun,
};
use oxc_svelte_backend::diagnostic::{
    AnalysisError, ParseError, ParseErrorKind, TransformError, TransformErrorKind,
};
use oxc_svelte_backend::semantic::ComponentAnalysis;

const GOALS: [CompilerGoal; 3] =
    [CompilerGoal::Syntax, CompilerGoal::Lint, CompilerGoal::Component];

fn component() -> Root {
    Root {
        fragment: Fragment { nodes: vec![] },
        comments: vec![],
        instance: None,
        module: None,
    }
}

fn analysis() -> AnalyzedComponent {
    AnalyzedComponent {
        root: component(),
        analysis: ComponentAnalysis {
            bindings: vec![],
            runes: false,
            uses_props: false,
            uses_rest_props: false,
            uses_slots: false,
        },
    }
}

/// The phases that a goal asks for, where every phase succeeds.
fn phases(goal: CompilerGoal) -> Vec<CompilerPhase> {
    let mut run = CompilerRun::Unstarted;
    let mut phases = vec![];
    while let Some(phase) = run.next_phase(goal) {
        phases.push(phase);
        run = match phase {
            CompilerPhase::Parse => run.record_parse(Ok(component())),
            CompilerPhase::Analyze => run.record_analysis(Ok(analysis())),
            CompilerPhase::Transform => run.record_transform(Ok(vec![])),
        };
    }
    phases
}

#[test]
fn each_goal_runs_the_phases_it_needs() {
    assert_eq!(phases(CompilerGoal::Syntax), [CompilerPhase::Parse]);
    assert_eq!(phases(CompilerGoal::Lint), [CompilerPhase::Parse, CompilerPhase::Analyze]);
    assert_eq!(
        phases(CompilerGoal::Component),
        [CompilerPhase::Parse, CompilerPhase::Analyze, CompilerPhase::Transform]
    );
}

#[test]
fn a_refusal_ends_the_run() {
    let parse_error = ParseError {
        kind: ParseErrorKind::Generic,
        start: 0,
        end: 0,
        message: String::new(),
    };
    let transform_error =
        TransformError { kind: TransformErrorKind::CodeGen, message: String::new() };
    let runs = [
        CompilerRun::Unstarted.record_parse(Err(parse_error)),
        CompilerRun::Unstarted
            .record_parse(Ok(component()))
            .record_analysis(Err(AnalysisError::Scope(String::new()))),
        CompilerRun::Unstarted
            .record_parse(Ok(component()))
            .record_analysis(Ok(analysis()))
            .record_transform(Err(transform_error)),
    ];
    assert!(matches!(runs[0], CompilerRun::ParseFailed(_)));
    assert!(matches!(runs[1], CompilerRun::AnalysisFailed(..)));
    assert!(matches!(runs[2], CompilerRun::TransformFailed(..)));
    for run in &runs {
        for goal in GOALS {
            assert_eq!(run.next_phase(goal), None);
        }
    }
}
