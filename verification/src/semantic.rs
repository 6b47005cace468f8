//! Component-wide facts for lint rules that see one script at a time.

use vstd::prelude::*;
use vstd::utf8::encode_utf8;

use crate::ast::Root;
use crate::binding::{
    binding_declaration_start, collect_component_bindings, store_name, Binding, BindingKind,
    Reference,
};
#[allow(unused_imports)]
use crate::binding::{
    component_references, declaration_of, in_body, is_named_at, law_declaration_has_name,
};
use crate::order::insert_unique;
#[allow(unused_imports)]
use crate::order::{law_ascending_list_is_unique, strictly_ascending, views, Ordered};
use crate::script::SvelteScript;
#[allow(unused_imports)]
use crate::search::{
    first_where, lemma_first_where_at, lemma_first_where_none,
};
use crate::span::Span;
#[allow(unused_imports)]
use crate::text::bytes_before;

verus! {

/// What the analysis found out about a component.
#[derive(Debug)]
pub struct ComponentAnalysis {
    pub bindings: Vec<Binding>,
    /// The component uses runes.
    pub runes: bool,
    pub uses_props: bool,
    pub uses_rest_props: bool,
    pub uses_slots: bool,
}

impl ComponentAnalysis {
    /// Whether every resolved store is a binding of the component.
    pub open spec fn well_formed(self) -> bool {
        forall|i: int|
            0 <= i < self.bindings@.len() ==> ((#[trigger] self.bindings@[i]).store_target matches Some(
                target,
            ) ==> target < self.bindings@.len())
    }
}

/// Component-wide semantic facts needed by partial-file lint rules.
#[derive(Debug, Clone, PartialEq, Eq)]
pub struct SvelteSemanticSummary {
    /// Absolute source spans that resolve to a component binding.
    pub resolved_references: Vec<Span>,
    /// Absolute declaration starts with uses outside an isolated script scope.
    pub used_bindings: Vec<u32>,
    /// Framework-provided globals that are valid in embedded scripts.
    pub implicit_globals: Vec<String>,
}

/// Whether `reference` stands where the script that declares the binding cannot
/// see it: in the template, or outside the body that holds the declaration.
pub open spec fn is_outside_use(
    reference: Reference,
    declaration: u32,
    scripts: Seq<SvelteScript>,
) -> bool {
    ||| reference.is_template_reference
    ||| match first_where(scripts, |script: SvelteScript| in_body(script, declaration)) {
        Some(script) => !in_body(script, reference.start),
        None => false,
    }
}

/// Whether one of `references` is an outside use.
pub open spec fn has_outside_use(
    references: Seq<Reference>,
    declaration: u32,
    scripts: Seq<SvelteScript>,
) -> bool {
    exists|i: int|
        0 <= i < references.len() && is_outside_use(#[trigger] references[i], declaration, scripts)
}

/// Whether `binding`, declared at `start`, is itself used from outside, or is a
/// bindable prop whose updates the parent observes.
pub open spec fn is_observed(
    bytes: Seq<u8>,
    root: Root,
    scripts: Seq<SvelteScript>,
    binding: Binding,
    start: u32,
) -> bool {
    &&& declaration_of(bytes, binding, root, scripts) == Some(start)
    &&& has_outside_use(binding.references@, start, scripts) || (binding.kind
        == BindingKind::BindableProp && binding.is_updated)
}

/// Whether `subscription` is a used store subscription whose store is declared
/// at `start`.
pub open spec fn is_subscribed(
    bytes: Seq<u8>,
    analysis: ComponentAnalysis,
    root: Root,
    scripts: Seq<SvelteScript>,
    subscription: Binding,
    start: u32,
) -> bool {
    &&& subscription.kind == BindingKind::StoreSub
    &&& subscription.references@.len() > 0
    &&& subscription.name@.len() > 0
    &&& subscription.name@[0] == '$'
    &&& subscription.store_target matches Some(target)
    &&& declaration_of(bytes, analysis.bindings@[target as int], root, scripts) == Some(start)
}

/// Whether `index` is a binding that is declared at `start`.
pub open spec fn is_declared_at(
    bytes: Seq<u8>,
    analysis: ComponentAnalysis,
    root: Root,
    scripts: Seq<SvelteScript>,
    index: usize,
    start: u32,
) -> bool {
    &&& index < analysis.bindings@.len()
    &&& declaration_of(bytes, analysis.bindings@[index as int], root, scripts) == Some(start)
}

/// Whether one of the first `count` bindings is observed at `start`.
pub open spec fn observed_among(
    bytes: Seq<u8>,
    analysis: ComponentAnalysis,
    root: Root,
    scripts: Seq<SvelteScript>,
    count: int,
    start: u32,
) -> bool {
    exists|i: int|
        0 <= i < count && is_observed(bytes, root, scripts, #[trigger] analysis.bindings@[i], start)
}

/// Whether one of the first `count` bindings subscribes to a store at `start`.
pub open spec fn subscribed_among(
    bytes: Seq<u8>,
    analysis: ComponentAnalysis,
    root: Root,
    scripts: Seq<SvelteScript>,
    count: int,
    start: u32,
) -> bool {
    exists|i: int|
        0 <= i < count && is_subscribed(
            bytes,
            analysis,
            root,
            scripts,
            #[trigger] analysis.bindings@[i],
            start,
        )
}

/// Whether one of `indices` is a binding that is declared at `start`.
pub open spec fn declared_among(
    bytes: Seq<u8>,
    analysis: ComponentAnalysis,
    root: Root,
    scripts: Seq<SvelteScript>,
    indices: Seq<usize>,
    start: u32,
) -> bool {
    exists|i: int|
        0 <= i < indices.len() && is_declared_at(
            bytes,
            analysis,
            root,
            scripts,
            #[trigger] indices[i],
            start,
        )
}

/// Whether the binding declared at `start` counts as used: it is observed, or a
/// used store subscription stands for it, or a component tag refers to it.
pub open spec fn is_used_binding(
    bytes: Seq<u8>,
    analysis: ComponentAnalysis,
    root: Root,
    scripts: Seq<SvelteScript>,
    start: u32,
) -> bool {
    ||| observed_among(bytes, analysis, root, scripts, analysis.bindings@.len() as int, start)
    ||| subscribed_among(bytes, analysis, root, scripts, analysis.bindings@.len() as int, start)
    ||| declared_among(bytes, analysis, root, scripts, component_references(root.fragment), start)
}

/// Whether one of `references` has `span`.
pub open spec fn has_span(references: Seq<Reference>, span: Span) -> bool {
    exists|i: int|
        0 <= i < references.len() && span == (Span {
            start: (#[trigger] references[i]).start,
            end: references[i].end,
        })
}

/// Whether a reference of one of the first `count` bindings has `span`.
pub open spec fn is_resolved_among(bindings: Seq<Binding>, count: int, span: Span) -> bool {
    exists|i: int| 0 <= i < count && has_span((#[trigger] bindings[i]).references@, span)
}

/// Whether `name` is a global that the framework provides.
pub open spec fn is_implicit_global(analysis: ComponentAnalysis, name: Seq<char>) -> bool {
    if analysis.runes {
        ||| name == "$state"@
        ||| name == "$derived"@
        ||| name == "$props"@
        ||| name == "$bindable"@
        ||| name == "$effect"@
        ||| name == "$inspect"@
        ||| name == "$host"@
    } else {
        ||| analysis.uses_props && name == "$$props"@
        ||| analysis.uses_rest_props && name == "$$restProps"@
        ||| analysis.uses_slots && name == "$$slots"@
    }
}

/// Whether `summary` lists, each in ascending order and without repeats, the
/// spans of all references, the declarations of the used bindings and the
/// implicit globals, and nothing else.
pub open spec fn is_summary_of(
    bytes: Seq<u8>,
    analysis: ComponentAnalysis,
    root: Root,
    scripts: Seq<SvelteScript>,
    summary: SvelteSemanticSummary,
) -> bool {
    &&& strictly_ascending::<Span>(summary.resolved_references@)
    &&& forall|span: Span| #[trigger]
        summary.resolved_references@.contains(span) <==> is_resolved_among(
            analysis.bindings@,
            analysis.bindings@.len() as int,
            span,
        )
    &&& strictly_ascending::<u32>(summary.used_bindings@)
    &&& forall|start: u32| #[trigger]
        summary.used_bindings@.contains(start) <==> is_used_binding(
            bytes,
            analysis,
            root,
            scripts,
            start,
        )
    &&& strictly_ascending::<String>(views(summary.implicit_globals@))
    &&& forall|name: Seq<char>| #[trigger]
        views(summary.implicit_globals@).contains(name) <==> is_implicit_global(analysis, name)
}

/// A used binding is a binding of the component, and its name stands in the text
/// where the summary says that it is declared.
pub proof fn law_used_bindings_are_named(
    bytes: Seq<u8>,
    analysis: ComponentAnalysis,
    root: Root,
    scripts: Seq<SvelteScript>,
    start: u32,
)
    requires
        analysis.well_formed(),
        is_used_binding(bytes, analysis, root, scripts, start),
    ensures
        exists|i: int|
            0 <= i < analysis.bindings@.len() && is_named_at(
                bytes,
                #[trigger] analysis.bindings@[i],
                start,
            ),
{
    let bindings = analysis.bindings@;
    assert forall|i: int| 0 <= i < bindings.len() && declaration_of(
        bytes,
        #[trigger] bindings[i],
        root,
        scripts,
    ) == Some(start) implies is_named_at(bytes, bindings[i], start) by {
        law_declaration_has_name(bytes, bindings[i], root, scripts);
    }
    if observed_among(bytes, analysis, root, scripts, bindings.len() as int, start) {
    } else if subscribed_among(bytes, analysis, root, scripts, bindings.len() as int, start) {
        let i = choose|i: int|
            0 <= i < bindings.len() && is_subscribed(
                bytes,
                analysis,
                root,
                scripts,
                #[trigger] bindings[i],
                start,
            );
        let target = bindings[i].store_target->0;
        assert(is_named_at(bytes, bindings[target as int], start));
    } else {
        let indices = component_references(root.fragment);
        let i = choose|i: int|
            0 <= i < indices.len() && is_declared_at(
                bytes,
                analysis,
                root,
                scripts,
                #[trigger] indices[i],
                start,
            );
        assert(is_named_at(bytes, bindings[indices[i] as int], start));
    }
}

/// The summary of a component is settled: two summaries of it list the same
/// values in the same order.
pub proof fn law_summary_is_settled(
    bytes: Seq<u8>,
    analysis: ComponentAnalysis,
    root: Root,
    scripts: Seq<SvelteScript>,
    a: SvelteSemanticSummary,
    b: SvelteSemanticSummary,
)
    requires
        is_summary_of(bytes, analysis, root, scripts, a),
        is_summary_of(bytes, analysis, root, scripts, b),
    ensures
        a.resolved_references@ == b.resolved_references@,
        a.used_bindings@ == b.used_bindings@,
        views(a.implicit_globals@) == views(b.implicit_globals@),
{
    assert forall|span: Span| #[trigger]
        a.resolved_references@.contains(span) <==> b.resolved_references@.contains(span) by {}
    law_ascending_list_is_unique::<Span>(a.resolved_references@, b.resolved_references@);
    assert forall|start: u32| #[trigger]
        a.used_bindings@.contains(start) <==> b.used_bindings@.contains(start) by {}
    law_ascending_list_is_unique::<u32>(a.used_bindings@, b.used_bindings@);
    assert forall|name: Seq<char>| #[trigger]
        views(a.implicit_globals@).contains(name) <==> views(b.implicit_globals@).contains(
            name,
        ) by {}
    law_ascending_list_is_unique::<String>(
        views(a.implicit_globals@),
        views(b.implicit_globals@),
    );
}

proof fn lemma_views_of_plain(starts: Seq<u32>, spans: Seq<Span>)
    ensures
        views(starts) == starts,
        views(spans) == spans,
{
    assert(views(starts) =~= starts);
    assert(views(spans) =~= spans);
}

/// Adds `start` to strictly ascending starts.
fn add_start(starts: &mut Vec<u32>, start: u32)
    requires
        strictly_ascending::<u32>(old(starts)@),
    ensures
        strictly_ascending::<u32>(final(starts)@),
        forall|s: u32| #[trigger]
            final(starts)@.contains(s) <==> old(starts)@.contains(s) || s == start,
{
    proof {
        lemma_views_of_plain(starts@, Seq::empty());
    }
    insert_unique(starts, start);
    proof {
        lemma_views_of_plain(starts@, Seq::empty());
    }
}

/// Adds `name` to strictly ascending names.
fn add_name(names: &mut Vec<String>, name: &str)
    requires
        strictly_ascending::<String>(views(old(names)@)),
    ensures
        strictly_ascending::<String>(views(final(names)@)),
        forall|n: Seq<char>| #[trigger]
            views(final(names)@).contains(n) <==> views(old(names)@).contains(n) || n == name@,
{
    insert_unique(names, name.to_owned());
}

/// Adds the spans of the references of one binding to strictly ascending spans.
fn add_references(spans: &mut Vec<Span>, references: &Vec<Reference>)
    requires
        strictly_ascending::<Span>(old(spans)@),
    ensures
        strictly_ascending::<Span>(final(spans)@),
        forall|span: Span| #[trigger]
            final(spans)@.contains(span) <==> old(spans)@.contains(span) || has_span(
                references@,
                span,
            ),
{
    let ghost before = spans@;
    let mut index: usize = 0;
    while index < references.len()
        invariant
            index <= references@.len(),
            strictly_ascending::<Span>(spans@),
            forall|span: Span| #[trigger]
                spans@.contains(span) <==> before.contains(span) || has_span(
                    references@.take(index as int),
                    span,
                ),
        decreases references@.len() - index,
    {
        let span = Span::new(references[index].start, references[index].end);
        let ghost current = spans@;
        proof {
            lemma_views_of_plain(Seq::empty(), spans@);
        }
        insert_unique(spans, span);
        proof {
            lemma_views_of_plain(Seq::empty(), spans@);
            let done = references@.take(index as int);
            let more = references@.take(index + 1);
            assert forall|s: Span| #[trigger] spans@.contains(s) <==> before.contains(s) || has_span(
                more,
                s,
            ) by {
                assert(spans@.contains(s) <==> current.contains(s) || s == span);
                if has_span(done, s) {
                    let i = choose|i: int|
                        0 <= i < done.len() && s == (Span {
                            start: (#[trigger] done[i]).start,
                            end: done[i].end,
                        });
                    assert(more[i] == done[i]);
                }
                if s == span {
                    assert(more[index as int] == references@[index as int]);
                }
                if has_span(more, s) {
                    let i = choose|i: int|
                        0 <= i < more.len() && s == (Span {
                            start: (#[trigger] more[i]).start,
                            end: more[i].end,
                        });
                    if i < index {
                        assert(done[i] == more[i]);
                    }
                }
            }
        }
        index = index + 1;
    }
    assert(references@.take(index as int) =~= references@);
}

/// Whether a reference stands where the script that declares the binding cannot
/// see it.
fn is_used_outside(
    references: &Vec<Reference>,
    declaration: u32,
    scripts: &Vec<SvelteScript>,
) -> (r: bool)
    ensures
        r == has_outside_use(references@, declaration, scripts@),
{
    let ghost holds = |script: SvelteScript| in_body(script, declaration);
    let mut body: Option<Span> = None;
    let mut index: usize = 0;
    while index < scripts.len() && body.is_none()
        invariant
            index <= scripts@.len(),
            holds == (|script: SvelteScript| in_body(script, declaration)),
            match body {
                Some(span) => first_where(scripts@, holds) matches Some(script)
                    && script.body_range.span == span,
                None => forall|j: int| 0 <= j < index ==> !holds(#[trigger] scripts@[j]),
            },
        decreases scripts@.len() - index,
    {
        let span = scripts[index].body_range.span;
        if declaration >= span.start && declaration < span.end {
            proof {
                lemma_first_where_at(scripts@, holds, index as int);
            }
            body = Some(span);
        }
        index = index + 1;
    }
    proof {
        if body is None {
            lemma_first_where_none(scripts@, holds);
        }
    }
    let mut index: usize = 0;
    while index < references.len()
        invariant
            index <= references@.len(),
            holds == (|script: SvelteScript| in_body(script, declaration)),
            match body {
                Some(span) => first_where(scripts@, holds) matches Some(script)
                    && script.body_range.span == span,
                None => first_where(scripts@, holds) is None,
            },
            forall|j: int|
                0 <= j < index ==> !is_outside_use(
                    #[trigger] references@[j],
                    declaration,
                    scripts@,
                ),
        decreases references@.len() - index,
    {
        let reference = references[index];
        let outside = reference.is_template_reference || match body {
            Some(span) => !(span.start <= reference.start && reference.start < span.end),
            None => false,
        };
        if outside {
            assert(is_outside_use(references@[index as int], declaration, scripts@));
            return true;
        }
        index = index + 1;
    }
    false
}

/// The facts of an analyzed component.
pub fn build_semantic_summary(
    source: &str,
    analysis: &ComponentAnalysis,
    root: &Root,
    scripts: &Vec<SvelteScript>,
) -> (r: SvelteSemanticSummary)
    requires
        analysis.well_formed(),
    ensures
        is_summary_of(encode_utf8(source@), *analysis, *root, scripts@, r),
{
    let ghost bytes = encode_utf8(source@);
    let ghost all = scripts@;
    let mut resolved_references: Vec<Span> = Vec::new();
    let mut used_bindings: Vec<u32> = Vec::new();

    let mut index: usize = 0;
    while index < analysis.bindings.len()
        invariant
            index <= analysis.bindings@.len(),
            bytes == encode_utf8(source@),
            all == scripts@,
            strictly_ascending::<Span>(resolved_references@),
            forall|span: Span| #[trigger]
                resolved_references@.contains(span) <==> is_resolved_among(
                    analysis.bindings@,
                    index as int,
                    span,
                ),
            strictly_ascending::<u32>(used_bindings@),
            forall|start: u32| #[trigger]
                used_bindings@.contains(start) <==> observed_among(
                    bytes,
                    *analysis,
                    *root,
                    all,
                    index as int,
                    start,
                ),
        decreases analysis.bindings@.len() - index,
    {
        let binding = &analysis.bindings[index];
        let ghost spans = resolved_references@;
        let ghost starts = used_bindings@;
        add_references(&mut resolved_references, &binding.references);
        let mut observed: Option<u32> = None;
        if let Some(start) = binding_declaration_start(source, binding, root, scripts) {
            let bindable = match binding.kind {
                BindingKind::BindableProp => binding.is_updated,
                _ => false,
            };
            if is_used_outside(&binding.references, start, scripts) || bindable {
                observed = Some(start);
                add_start(&mut used_bindings, start);
            }
        }
        proof {
            assert forall|span: Span| #[trigger]
                resolved_references@.contains(span) <==> is_resolved_among(
                    analysis.bindings@,
                    index + 1,
                    span,
                ) by {
                assert(spans.contains(span) <==> is_resolved_among(
                    analysis.bindings@,
                    index as int,
                    span,
                ));
                assert(has_span(analysis.bindings@[index as int].references@, span)
                    ==> is_resolved_among(analysis.bindings@, index + 1, span));
            }
            assert forall|start: u32| #[trigger]
                used_bindings@.contains(start) <==> observed_among(
                    bytes,
                    *analysis,
                    *root,
                    all,
                    index + 1,
                    start,
                ) by {
                assert(starts.contains(start) <==> observed_among(
                    bytes,
                    *analysis,
                    *root,
                    all,
                    index as int,
                    start,
                ));
                assert(is_observed(bytes, *root, all, analysis.bindings@[index as int], start)
                    <==> observed == Some(start));
                assert(used_bindings@.contains(start) <==> starts.contains(start) || observed
                    == Some(start));
                if is_observed(bytes, *root, all, analysis.bindings@[index as int], start) {
                    assert(observed_among(bytes, *analysis, *root, all, index + 1, start));
                }
            }
        }
        index = index + 1;
    }
    let ghost observed_starts = used_bindings@;

    let mut index: usize = 0;
    while index < analysis.bindings.len()
        invariant
            index <= analysis.bindings@.len(),
            analysis.well_formed(),
            bytes == encode_utf8(source@),
            all == scripts@,
            strictly_ascending::<u32>(used_bindings@),
            forall|start: u32| #[trigger]
                used_bindings@.contains(start) <==> observed_starts.contains(start)
                    || subscribed_among(bytes, *analysis, *root, all, index as int, start),
        decreases analysis.bindings@.len() - index,
    {
        let subscription = &analysis.bindings[index];
        let ghost starts = used_bindings@;
        let is_subscription = match subscription.kind {
            BindingKind::StoreSub => subscription.references.len() > 0,
            _ => false,
        };
        let mut subscribed: Option<u32> = None;
        if is_subscription && store_name(subscription.name.as_str()).is_some() {
            if let Some(target) = subscription.store_target {
                assert(analysis.bindings@[index as int].store_target == Some(target));
                if let Some(start) = binding_declaration_start(
                    source,
                    &analysis.bindings[target],
                    root,
                    scripts,
                ) {
                    subscribed = Some(start);
                    add_start(&mut used_bindings, start);
                }
            }
        }
        proof {
            assert forall|start: u32| #[trigger]
                used_bindings@.contains(start) <==> observed_starts.contains(start)
                    || subscribed_among(bytes, *analysis, *root, all, index + 1, start) by {
                assert(starts.contains(start) <==> observed_starts.contains(start)
                    || subscribed_among(bytes, *analysis, *root, all, index as int, start));
                assert(is_subscribed(
                    bytes,
                    *analysis,
                    *root,
                    all,
                    analysis.bindings@[index as int],
                    start,
                ) <==> subscribed == Some(start));
                assert(used_bindings@.contains(start) <==> starts.contains(start) || subscribed
                    == Some(start));
                if subscribed == Some(start) {
                    assert(subscribed_among(bytes, *analysis, *root, all, index + 1, start));
                }
            }
        }
        index = index + 1;
    }
    let ghost subscribed_starts = used_bindings@;

    let mut component_bindings: Vec<usize> = Vec::new();
    collect_component_bindings(&root.fragment, &mut component_bindings);
    let ghost indices = component_references(root.fragment);
    assert(component_bindings@ =~= indices);
    let mut index: usize = 0;
    while index < component_bindings.len()
        invariant
            index <= component_bindings@.len(),
            component_bindings@ == indices,
            bytes == encode_utf8(source@),
            all == scripts@,
            strictly_ascending::<u32>(used_bindings@),
            forall|start: u32| #[trigger]
                used_bindings@.contains(start) <==> subscribed_starts.contains(start)
                    || declared_among(
                    bytes,
                    *analysis,
                    *root,
                    all,
                    indices.take(index as int),
                    start,
                ),
        decreases component_bindings@.len() - index,
    {
        let ghost starts = used_bindings@;
        let binding_index: usize = component_bindings[index];
        let mut declared: Option<u32> = None;
        if binding_index < analysis.bindings.len() {
            if let Some(start) = binding_declaration_start(
                source,
                &analysis.bindings[binding_index],
                root,
                scripts,
            ) {
                declared = Some(start);
                add_start(&mut used_bindings, start);
            }
        }
        proof {
            let done = indices.take(index as int);
            let more = indices.take(index + 1);
            assert forall|start: u32| #[trigger]
                used_bindings@.contains(start) <==> subscribed_starts.contains(start)
                    || declared_among(bytes, *analysis, *root, all, more, start) by {
                assert(starts.contains(start) <==> subscribed_starts.contains(start)
                    || declared_among(bytes, *analysis, *root, all, done, start));
                assert(is_declared_at(bytes, *analysis, *root, all, binding_index, start)
                    <==> declared == Some(start));
                assert(used_bindings@.contains(start) <==> starts.contains(start) || declared
                    == Some(start));
                if declared == Some(start) {
                    assert(more[index as int] == binding_index);
                }
                if declared_among(bytes, *analysis, *root, all, done, start) {
                    let i = choose|i: int|
                        0 <= i < done.len() && is_declared_at(
                            bytes,
                            *analysis,
                            *root,
                            all,
                            #[trigger] done[i],
                            start,
                        );
                    assert(more[i] == done[i]);
                }
                if declared_among(bytes, *analysis, *root, all, more, start) {
                    let i = choose|i: int|
                        0 <= i < more.len() && is_declared_at(
                            bytes,
                            *analysis,
                            *root,
                            all,
                            #[trigger] more[i],
                            start,
                        );
                    if i < index {
                        assert(done[i] == more[i]);
                    }
                }
            }
        }
        index = index + 1;
    }
    assert(indices.take(index as int) =~= indices);

    let implicit_globals = list_implicit_globals(analysis);
    SvelteSemanticSummary { resolved_references, used_bindings, implicit_globals }
}

/// The globals that the framework provides, in ascending order.
fn list_implicit_globals(analysis: &ComponentAnalysis) -> (r: Vec<String>)
    ensures
        strictly_ascending::<String>(views(r@)),
        forall|name: Seq<char>| #[trigger]
            views(r@).contains(name) <==> is_implicit_global(*analysis, name),
{
    let mut globals: Vec<String> = Vec::new();
    assert(views(globals@) =~= Seq::empty());
    if analysis.runes {
        add_name(&mut globals, "$state");
        add_name(&mut globals, "$derived");
        add_name(&mut globals, "$props");
        add_name(&mut globals, "$bindable");
        add_name(&mut globals, "$effect");
        add_name(&mut globals, "$inspect");
        add_name(&mut globals, "$host");
    } else {
        if analysis.uses_props {
            add_name(&mut globals, "$$props");
        }
        if analysis.uses_rest_props {
            add_name(&mut globals, "$$restProps");
        }
        if analysis.uses_slots {
            add_name(&mut globals, "$$slots");
        }
    }
    globals
}

/// A binding counts as used as soon as any of its references, wherever in the list,
/// stands in the template.
pub proof fn law_any_template_reference_counts(
    bytes: Seq<u8>,
    analysis: ComponentAnalysis,
    root: Root,
    scripts: Seq<SvelteScript>,
    summary: SvelteSemanticSummary,
    i: int,
    k: int,
    start: u32,
)
    requires
        is_summary_of(bytes, analysis, root, scripts, summary),
        0 <= i < analysis.bindings@.len(),
        declaration_of(bytes, analysis.bindings@[i], root, scripts) == Some(start),
        0 <= k < analysis.bindings@[i].references@.len(),
        analysis.bindings@[i].references@[k].is_template_reference,
    ensures
        summary.used_bindings@.contains(start),
{
    let binding = analysis.bindings@[i];
    assert(is_outside_use(binding.references@[k], start, scripts));
    assert(is_observed(bytes, root, scripts, binding, start));
    assert(is_used_binding(bytes, analysis, root, scripts, start));
}

/// A binding counts as used as soon as any of its references, wherever in the list,
/// starts outside the body of the script that holds the declaration.
pub proof fn law_any_reference_outside_the_script_counts(
    bytes: Seq<u8>,
    analysis: ComponentAnalysis,
    root: Root,
    scripts: Seq<SvelteScript>,
    summary: SvelteSemanticSummary,
    i: int,
    k: int,
    m: int,
    start: u32,
)
    requires
        is_summary_of(bytes, analysis, root, scripts, summary),
        0 <= i < analysis.bindings@.len(),
        declaration_of(bytes, analysis.bindings@[i], root, scripts) == Some(start),
        0 <= k < analysis.bindings@[i].references@.len(),
        0 <= m < scripts.len(),
        scripts[m].body_range.span.start <= start < scripts[m].body_range.span.end,
        forall|j: int|
            0 <= j < m ==> !((#[trigger] scripts[j]).body_range.span.start <= start
                < scripts[j].body_range.span.end),
        analysis.bindings@[i].references@[k].start < scripts[m].body_range.span.start
            || analysis.bindings@[i].references@[k].start >= scripts[m].body_range.span.end,
    ensures
        summary.used_bindings@.contains(start),
{
    let binding = analysis.bindings@[i];
    lemma_first_where_at(scripts, |script: SvelteScript| in_body(script, start), m);
    assert(is_outside_use(binding.references@[k], start, scripts));
    assert(is_observed(bytes, root, scripts, binding, start));
    assert(is_used_binding(bytes, analysis, root, scripts, start));
}

/// A bindable prop that is updated counts as used, referred to or not.
pub proof fn law_updated_bindable_counts(
    bytes: Seq<u8>,
    analysis: ComponentAnalysis,
    root: Root,
    scripts: Seq<SvelteScript>,
    summary: SvelteSemanticSummary,
    i: int,
    start: u32,
)
    requires
        is_summary_of(bytes, analysis, root, scripts, summary),
        0 <= i < analysis.bindings@.len(),
        declaration_of(bytes, analysis.bindings@[i], root, scripts) == Some(start),
        analysis.bindings@[i].kind == BindingKind::BindableProp,
        analysis.bindings@[i].is_updated,
    ensures
        summary.used_bindings@.contains(start),
{
    assert(is_observed(bytes, root, scripts, analysis.bindings@[i], start));
    assert(is_used_binding(bytes, analysis, root, scripts, start));
}

/// The store behind a subscription counts as used as soon as the subscription has a
/// reference, wherever it stands.
pub proof fn law_store_of_a_used_subscription_counts(
    bytes: Seq<u8>,
    analysis: ComponentAnalysis,
    root: Root,
    scripts: Seq<SvelteScript>,
    summary: SvelteSemanticSummary,
    i: int,
    target: usize,
    start: u32,
)
    requires
        is_summary_of(bytes, analysis, root, scripts, summary),
        0 <= i < analysis.bindings@.len(),
        analysis.bindings@[i].kind == BindingKind::StoreSub,
        analysis.bindings@[i].references@.len() > 0,
        analysis.bindings@[i].name@.len() > 0,
        analysis.bindings@[i].name@[0] == '$',
        analysis.bindings@[i].store_target == Some(target),
        target < analysis.bindings@.len(),
        declaration_of(bytes, analysis.bindings@[target as int], root, scripts) == Some(start),
    ensures
        summary.used_bindings@.contains(start),
{
    assert(is_subscribed(bytes, analysis, root, scripts, analysis.bindings@[i], start));
    assert(is_used_binding(bytes, analysis, root, scripts, start));
}

/// A binding that any component tag refers to counts as used.
pub proof fn law_tagged_binding_counts(
    bytes: Seq<u8>,
    analysis: ComponentAnalysis,
    root: Root,
    scripts: Seq<SvelteScript>,
    summary: SvelteSemanticSummary,
    k: int,
    start: u32,
)
    requires
        is_summary_of(bytes, analysis, root, scripts, summary),
        0 <= k < component_references(root.fragment).len(),
        component_references(root.fragment)[k] < analysis.bindings@.len(),
        declaration_of(
            bytes,
            analysis.bindings@[component_references(root.fragment)[k] as int],
            root,
            scripts,
        ) == Some(start),
    ensures
        summary.used_bindings@.contains(start),
{
    let index = component_references(root.fragment)[k];
    assert(is_declared_at(bytes, analysis, root, scripts, index, start));
    assert(is_used_binding(bytes, analysis, root, scripts, start));
}

/// Nothing else counts as used: not a binding with references only in the body of
/// its own script, and nothing that is declared elsewhere.
pub proof fn law_nothing_else_counts(
    bytes: Seq<u8>,
    analysis: ComponentAnalysis,
    root: Root,
    scripts: Seq<SvelteScript>,
    summary: SvelteSemanticSummary,
    m: int,
    start: u32,
)
    requires
        is_summary_of(bytes, analysis, root, scripts, summary),
        0 <= m <= scripts.len(),
        forall|j: int|
            0 <= j < m ==> !((#[trigger] scripts[j]).body_range.span.start <= start
                < scripts[j].body_range.span.end),
        m < scripts.len() ==> scripts[m].body_range.span.start <= start
            < scripts[m].body_range.span.end,
        forall|i: int|
            0 <= i < analysis.bindings@.len() && declaration_of(
                bytes,
                #[trigger] analysis.bindings@[i],
                root,
                scripts,
            ) == Some(start) ==> {
                &&& !(analysis.bindings@[i].kind == BindingKind::BindableProp
                    && analysis.bindings@[i].is_updated)
                &&& forall|k: int|
                    0 <= k < analysis.bindings@[i].references@.len() ==> !(
                    #[trigger] analysis.bindings@[i].references@[k]).is_template_reference
                &&& m < scripts.len() ==> forall|k: int|
                    0 <= k < analysis.bindings@[i].references@.len()
                        ==> scripts[m].body_range.span.start <= (
                    #[trigger] analysis.bindings@[i].references@[k]).start
                        < scripts[m].body_range.span.end
            },
        forall|i: int|
            0 <= i < analysis.bindings@.len() && (#[trigger] analysis.bindings@[i]).kind
                == BindingKind::StoreSub && analysis.bindings@[i].references@.len() > 0
                && analysis.bindings@[i].name@.len() > 0 && analysis.bindings@[i].name@[0] == '$'
                && analysis.bindings@[i].store_target is Some ==> declaration_of(
                bytes,
                analysis.bindings@[analysis.bindings@[i].store_target->0 as int],
                root,
                scripts,
            ) != Some(start),
        forall|k: int|
            0 <= k < component_references(root.fragment).len() && (
            #[trigger] component_references(root.fragment)[k]) < analysis.bindings@.len()
                ==> declaration_of(
                bytes,
                analysis.bindings@[component_references(root.fragment)[k] as int],
                root,
                scripts,
            ) != Some(start),
    ensures
        !summary.used_bindings@.contains(start),
{
    let bindings = analysis.bindings@;
    let holds = |script: SvelteScript| in_body(script, start);
    if m < scripts.len() {
        lemma_first_where_at(scripts, holds, m);
    } else {
        lemma_first_where_none(scripts, holds);
    }
    if observed_among(bytes, analysis, root, scripts, bindings.len() as int, start) {
        let i = choose|i: int|
            0 <= i < bindings.len() && is_observed(
                bytes,
                root,
                scripts,
                #[trigger] bindings[i],
                start,
            );
        let references = bindings[i].references@;
        assert(has_outside_use(references, start, scripts));
        let k = choose|k: int|
            0 <= k < references.len() && is_outside_use(#[trigger] references[k], start, scripts);
        assert(!references[k].is_template_reference);
        assert(m < scripts.len() ==> in_body(scripts[m], references[k].start));
    }
    assert(!is_used_binding(bytes, analysis, root, scripts, start));
}

/// More references, or the same in another order, never hide a use.
pub proof fn law_more_references_never_hide_a_use(
    references: Seq<Reference>,
    more: Seq<Reference>,
    declaration: u32,
    scripts: Seq<SvelteScript>,
)
    requires
        forall|k: int| 0 <= k < references.len() ==> more.contains(#[trigger] references[k]),
        has_outside_use(references, declaration, scripts),
    ensures
        has_outside_use(more, declaration, scripts),
{
    let k = choose|k: int|
        0 <= k < references.len() && is_outside_use(
            #[trigger] references[k],
            declaration,
            scripts,
        );
    assert(more.contains(references[k]));
    let j = choose|j: int| 0 <= j < more.len() && more[j] == references[k];
    assert(is_outside_use(more[j], declaration, scripts));
}

/// Every reference of every binding is listed as resolved, and nothing else is.
pub proof fn law_resolved_are_all_references(
    bytes: Seq<u8>,
    analysis: ComponentAnalysis,
    root: Root,
    scripts: Seq<SvelteScript>,
    summary: SvelteSemanticSummary,
    i: int,
    k: int,
    span: Span,
)
    requires
        is_summary_of(bytes, analysis, root, scripts, summary),
    ensures
        0 <= i < analysis.bindings@.len() && 0 <= k < analysis.bindings@[i].references@.len()
            ==> summary.resolved_references@.contains(
            Span {
                start: analysis.bindings@[i].references@[k].start,
                end: analysis.bindings@[i].references@[k].end,
            },
        ),
        summary.resolved_references@.contains(span) ==> exists|p: int, q: int|
            0 <= p < analysis.bindings@.len() && 0 <= q < analysis.bindings@[p].references@.len()
                && (#[trigger] analysis.bindings@[p].references@[q]).start == span.start
                && analysis.bindings@[p].references@[q].end == span.end,
{
    let bindings = analysis.bindings@;
    if 0 <= i < bindings.len() && 0 <= k < bindings[i].references@.len() {
        let listed = Span {
            start: bindings[i].references@[k].start,
            end: bindings[i].references@[k].end,
        };
        assert(has_span(bindings[i].references@, listed));
        assert(is_resolved_among(bindings, bindings.len() as int, listed));
    }
    if summary.resolved_references@.contains(span) {
        let p = choose|p: int|
            0 <= p < bindings.len() && has_span((#[trigger] bindings[p]).references@, span);
        let references = bindings[p].references@;
        let q = choose|q: int|
            0 <= q < references.len() && span == (Span {
                start: (#[trigger] references[q]).start,
                end: references[q].end,
            });
        assert(bindings[p].references@[q].start == span.start);
    }
}

/// The lists of a summary ascend: declarations by offset, spans by start and then by
/// end, globals by their bytes; so no list has a value twice.
pub proof fn law_summary_lists_ascend(
    bytes: Seq<u8>,
    analysis: ComponentAnalysis,
    root: Root,
    scripts: Seq<SvelteScript>,
    summary: SvelteSemanticSummary,
    i: int,
    j: int,
)
    requires
        is_summary_of(bytes, analysis, root, scripts, summary),
        0 <= i < j,
    ensures
        j < summary.used_bindings@.len() ==> summary.used_bindings@[i] < summary.used_bindings@[j],
        j < summary.resolved_references@.len() ==> {
            let a = summary.resolved_references@[i];
            let b = summary.resolved_references@[j];
            a.start < b.start || (a.start == b.start && a.end < b.end)
        },
        j < summary.implicit_globals@.len() ==> bytes_before(
            encode_utf8(summary.implicit_globals@[i]@),
            encode_utf8(summary.implicit_globals@[j]@),
        ),
{
    if j < summary.used_bindings@.len() {
        assert(<u32 as Ordered>::before(summary.used_bindings@[i], summary.used_bindings@[j]));
    }
    if j < summary.resolved_references@.len() {
        assert(<Span as Ordered>::before(
            summary.resolved_references@[i],
            summary.resolved_references@[j],
        ));
    }
    if j < summary.implicit_globals@.len() {
        let names = views(summary.implicit_globals@);
        assert(<String as Ordered>::before(names[i], names[j]));
    }
}

/// With runes the runes are the implicit globals, whatever else the component uses;
/// without them each legacy global is one exactly where it is used.
pub proof fn law_implicit_globals_are_runes_or_legacy(
    bytes: Seq<u8>,
    analysis: ComponentAnalysis,
    root: Root,
    scripts: Seq<SvelteScript>,
    summary: SvelteSemanticSummary,
    name: Seq<char>,
)
    requires
        is_summary_of(bytes, analysis, root, scripts, summary),
    ensures
        analysis.runes ==> (views(summary.implicit_globals@).contains(name) <==> seq![
            "$state"@,
            "$derived"@,
            "$props"@,
            "$bindable"@,
            "$effect"@,
            "$inspect"@,
            "$host"@,
        ].contains(name)),
        !analysis.runes && name == "$$props"@ ==> (views(summary.implicit_globals@).contains(name)
            <==> analysis.uses_props),
        !analysis.runes && name == "$$restProps"@ ==> (views(
            summary.implicit_globals@,
        ).contains(name) <==> analysis.uses_rest_props),
        !analysis.runes && name == "$$slots"@ ==> (views(summary.implicit_globals@).contains(name)
            <==> analysis.uses_slots),
        !analysis.runes && name != "$$props"@ && name != "$$restProps"@ && name != "$$slots"@
            ==> !views(summary.implicit_globals@).contains(name),
{
    reveal_strlit("$$props");
    reveal_strlit("$$restProps");
    reveal_strlit("$$slots");
    assert("$$props"@.len() != "$$restProps"@.len() && "$$slots"@.len() != "$$restProps"@.len());
    assert("$$props"@[2] != "$$slots"@[2]);
    let runes = seq![
        "$state"@,
        "$derived"@,
        "$props"@,
        "$bindable"@,
        "$effect"@,
        "$inspect"@,
        "$host"@,
    ];
    assert(runes[0] == "$state"@ && runes[1] == "$derived"@ && runes[2] == "$props"@ && runes[3]
        == "$bindable"@ && runes[4] == "$effect"@ && runes[5] == "$inspect"@ && runes[6]
        == "$host"@);
    assert(views(summary.implicit_globals@).contains(name) <==> is_implicit_global(
        analysis,
        name,
    ));
}

/// An analysis is consistent where every store that it resolves is one of its
/// bindings.
pub proof fn law_analysis_is_consistent(analysis: ComponentAnalysis)
    ensures
        analysis.well_formed() <==> (forall|i: int|
            0 <= i < analysis.bindings@.len() && (
            #[trigger] analysis.bindings@[i]).store_target is Some
                ==> analysis.bindings@[i].store_target->0 < analysis.bindings@.len()),
{
}

} // verus!
