//! How far the Svelte compiler has to run, and what it answered.

use vstd::prelude::*;

use crate::ast::Root;
use crate::diagnostic::{AnalysisError, CompileWarning, ParseError, TransformError};
use crate::semantic::ComponentAnalysis;

verus! {

/// What a run of the compiler is for.
#[derive(Debug, Clone, Copy, PartialEq, Eq, Structural)]
pub enum CompilerGoal {
    /// Scripts and comments only; the compiler's own checks stay out.
    Syntax,
    /// Scripts, comments and component-wide facts.
    Lint,
    /// Scripts, comments and everything that the compiler reports.
    Component,
}

/// A phase of the compiler.
#[derive(Debug, Clone, Copy, PartialEq, Eq, Structural)]
pub enum CompilerPhase {
    Parse,
    Analyze,
    Transform,
}

/// What a successful analysis leaves behind.
#[derive(Debug)]
pub struct AnalyzedComponent {
    /// The component with the notes that the analysis made in it.
    pub root: Root,
    pub analysis: ComponentAnalysis,
}

/// The phases that have run, and what they answered.
#[derive(Debug)]
pub enum CompilerRun {
    Unstarted,
    ParseFailed(ParseError),
    Parsed(Root),
    AnalysisFailed(Root, AnalysisError),
    Analyzed(Root, AnalyzedComponent),
    TransformFailed(Root, TransformError),
    Transformed(Root, Vec<CompileWarning>),
}

impl CompilerRun {
    /// Whether the answers are consistent in themselves.
    pub open spec fn well_formed(self) -> bool {
        match self {
            CompilerRun::Unstarted | CompilerRun::ParseFailed(_) => true,
            CompilerRun::Parsed(root)
            | CompilerRun::AnalysisFailed(root, _)
            | CompilerRun::TransformFailed(root, _)
            | CompilerRun::Transformed(root, _) => root.well_formed(),
            CompilerRun::Analyzed(root, analyzed) => root.well_formed()
                && analyzed.analysis.well_formed(),
        }
    }

    /// The phase that the goal asks for next.
    pub open spec fn next(self, goal: CompilerGoal) -> Option<CompilerPhase> {
        match self {
            CompilerRun::Unstarted => Some(CompilerPhase::Parse),
            CompilerRun::Parsed(_) if goal != CompilerGoal::Syntax => Some(CompilerPhase::Analyze),
            CompilerRun::Analyzed(..) if goal == CompilerGoal::Component => Some(
                CompilerPhase::Transform,
            ),
            _ => None,
        }
    }

    /// Whether the run holds all that the goal asks for, or the answer that
    /// stopped it.
    pub open spec fn finished(self, goal: CompilerGoal) -> bool {
        match goal {
            CompilerGoal::Syntax => self is ParseFailed || self is Parsed,
            CompilerGoal::Lint => self is ParseFailed || self is AnalysisFailed || self is Analyzed,
            CompilerGoal::Component => self is ParseFailed || self is AnalysisFailed
                || self is TransformFailed || self is Transformed,
        }
    }

    /// The run after the parser has answered.
    pub open spec fn after_parse(self, answer: Result<Root, ParseError>) -> CompilerRun {
        match answer {
            Ok(root) => CompilerRun::Parsed(root),
            Err(error) => CompilerRun::ParseFailed(error),
        }
    }

    /// The run after the analysis of the parsed component has answered.
    pub open spec fn after_analysis(
        self,
        answer: Result<AnalyzedComponent, AnalysisError>,
    ) -> CompilerRun
        recommends
            self is Parsed,
    {
        match answer {
            Ok(analyzed) => CompilerRun::Analyzed(self->Parsed_0, analyzed),
            Err(error) => CompilerRun::AnalysisFailed(self->Parsed_0, error),
        }
    }

    /// The run after the transformation of the analyzed component has answered.
    pub open spec fn after_transform(
        self,
        answer: Result<Vec<CompileWarning>, TransformError>,
    ) -> CompilerRun
        recommends
            self is Analyzed,
    {
        match answer {
            Ok(warnings) => CompilerRun::Transformed(self->Analyzed_0, warnings),
            Err(error) => CompilerRun::TransformFailed(self->Analyzed_0, error),
        }
    }

    /// The phase that the goal asks for next.
    pub fn next_phase(&self, goal: CompilerGoal) -> (r: Option<CompilerPhase>)
        ensures
            r == self.next(goal),
    {
        match self {
            CompilerRun::Unstarted => Some(CompilerPhase::Parse),
            CompilerRun::Parsed(_) => match goal {
                CompilerGoal::Syntax => None,
                CompilerGoal::Lint | CompilerGoal::Component => Some(CompilerPhase::Analyze),
            },
            CompilerRun::Analyzed(..) => match goal {
                CompilerGoal::Syntax | CompilerGoal::Lint => None,
                CompilerGoal::Component => Some(CompilerPhase::Transform),
            },
            CompilerRun::ParseFailed(_)
            | CompilerRun::AnalysisFailed(..)
            | CompilerRun::TransformFailed(..)
            | CompilerRun::Transformed(..) => None,
        }
    }

    /// Notes what the parser answered.
    pub fn record_parse(self, answer: Result<Root, ParseError>) -> (r: CompilerRun)
        requires
            self is Unstarted,
        ensures
            r == self.after_parse(answer),
    {
        match answer {
            Ok(root) => CompilerRun::Parsed(root),
            Err(error) => CompilerRun::ParseFailed(error),
        }
    }

    /// Notes what the analysis answered.
    pub fn record_analysis(self, answer: Result<AnalyzedComponent, AnalysisError>) -> (r:
        CompilerRun)
        requires
            self is Parsed,
        ensures
            r == self.after_analysis(answer),
    {
        match self {
            CompilerRun::Parsed(root) => match answer {
                Ok(analyzed) => CompilerRun::Analyzed(root, analyzed),
                Err(error) => CompilerRun::AnalysisFailed(root, error),
            },
            other => other,
        }
    }

    /// Notes what the transformation answered.
    pub fn record_transform(self, answer: Result<Vec<CompileWarning>, TransformError>) -> (r:
        CompilerRun)
        requires
            self is Analyzed,
        ensures
            r == self.after_transform(answer),
    {
        match self {
            CompilerRun::Analyzed(root, _) => match answer {
                Ok(warnings) => CompilerRun::Transformed(root, warnings),
                Err(error) => CompilerRun::TransformFailed(root, error),
            },
            other => other,
        }
    }
}

/// A run either has a next phase or is finished, and noting the answer of the
/// next phase keeps it so: asking for the next phase until there is none ends
/// with a finished run, whatever the compiler answers.
pub proof fn law_phases_lead_to_finish(
    run: CompilerRun,
    goal: CompilerGoal,
    parsed: Result<Root, ParseError>,
    analyzed: Result<AnalyzedComponent, AnalysisError>,
    transformed: Result<Vec<CompileWarning>, TransformError>,
)
    ensures
        CompilerRun::Unstarted.next(goal) == Some(CompilerPhase::Parse),
        run.next(goal) is Some ==> !run.finished(goal),
        run.next(goal) == Some(CompilerPhase::Parse) ==> {
            let after = run.after_parse(parsed);
            run is Unstarted && (after.next(goal) is Some || after.finished(goal))
        },
        run.next(goal) == Some(CompilerPhase::Analyze) ==> {
            let after = run.after_analysis(analyzed);
            run is Parsed && (after.next(goal) is Some || after.finished(goal))
        },
        run.next(goal) == Some(CompilerPhase::Transform) ==> {
            let after = run.after_transform(transformed);
            run is Analyzed && after.finished(goal)
        },
{
}

/// A run for the syntax alone asks for no analysis, and only a run for the whole
/// component asks for the transformation.
pub proof fn law_goal_limits_phases(run: CompilerRun, goal: CompilerGoal)
    ensures
        run.next(CompilerGoal::Syntax) is None || run.next(CompilerGoal::Syntax) == Some(
            CompilerPhase::Parse,
        ),
        run.next(goal) == Some(CompilerPhase::Transform) ==> goal == CompilerGoal::Component,
{
}

/// The parser runs first, whatever the goal. A parsed component is analyzed unless
/// only its syntax is wanted, an analyzed one is transformed only where the whole
/// component is wanted, and nothing follows anything else.
pub proof fn law_each_goal_runs_the_phases_it_needs(run: CompilerRun, goal: CompilerGoal)
    ensures
        run is Unstarted ==> run.next(goal) == Some(CompilerPhase::Parse),
        run is Parsed && goal == CompilerGoal::Syntax ==> run.next(goal) is None,
        run is Parsed && goal != CompilerGoal::Syntax ==> run.next(goal) == Some(
            CompilerPhase::Analyze,
        ),
        run is Analyzed && goal == CompilerGoal::Component ==> run.next(goal) == Some(
            CompilerPhase::Transform,
        ),
        run is Analyzed && goal != CompilerGoal::Component ==> run.next(goal) is None,
        run is ParseFailed || run is AnalysisFailed || run is TransformFailed || run is Transformed
            ==> run.next(goal) is None,
{
}

/// A run is finished where a refusal stopped it or the last phase that its goal needs
/// has answered.
pub proof fn law_finished_runs(run: CompilerRun, goal: CompilerGoal)
    ensures
        run is ParseFailed ==> run.finished(goal),
        run is AnalysisFailed ==> (run.finished(goal) <==> goal != CompilerGoal::Syntax),
        run is TransformFailed ==> (run.finished(goal) <==> goal == CompilerGoal::Component),
        run is Transformed ==> (run.finished(goal) <==> goal == CompilerGoal::Component),
        run is Analyzed ==> (run.finished(goal) <==> goal == CompilerGoal::Lint),
        run is Parsed ==> (run.finished(goal) <==> goal == CompilerGoal::Syntax),
        run is Unstarted ==> !run.finished(goal),
{
}

/// A run keeps every answer as it was given, and the parsed component along with the
/// answers of the later phases.
pub proof fn law_runs_keep_their_answers(
    root: Root,
    analyzed: AnalyzedComponent,
    warnings: Vec<CompileWarning>,
    parse_error: ParseError,
    analysis_error: AnalysisError,
    transform_error: TransformError,
)
    ensures
        CompilerRun::Unstarted.after_parse(Ok(root)) == CompilerRun::Parsed(root),
        CompilerRun::Unstarted.after_parse(Err(parse_error)) == CompilerRun::ParseFailed(
            parse_error,
        ),
        CompilerRun::Parsed(root).after_analysis(Ok(analyzed)) == CompilerRun::Analyzed(
            root,
            analyzed,
        ),
        CompilerRun::Parsed(root).after_analysis(Err(analysis_error))
            == CompilerRun::AnalysisFailed(root, analysis_error),
        CompilerRun::Analyzed(root, analyzed).after_transform(Ok(warnings))
            == CompilerRun::Transformed(root, warnings),
        CompilerRun::Analyzed(root, analyzed).after_transform(Err(transform_error))
            == CompilerRun::TransformFailed(root, transform_error),
{
}

/// A run is consistent where the component and the analysis in it are.
pub proof fn law_consistent_runs(
    run: CompilerRun,
    root: Root,
    analyzed: AnalyzedComponent,
    warnings: Vec<CompileWarning>,
    analysis_error: AnalysisError,
    transform_error: TransformError,
)
    ensures
        run is Unstarted || run is ParseFailed ==> run.well_formed(),
        CompilerRun::Parsed(root).well_formed() <==> root.well_formed(),
        CompilerRun::AnalysisFailed(root, analysis_error).well_formed() <==> root.well_formed(),
        CompilerRun::TransformFailed(root, transform_error).well_formed() <==> root.well_formed(),
        CompilerRun::Transformed(root, warnings).well_formed() <==> root.well_formed(),
        CompilerRun::Analyzed(root, analyzed).well_formed() <==> root.well_formed()
            && analyzed.analysis.well_formed(),
{
}

} // verus!
