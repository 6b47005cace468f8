//! The parse payload of a `.svelte` file.

use vstd::prelude::*;
use vstd::utf8::encode_utf8;

use crate::ast::{Root, ScriptContext};
use crate::comment::{collect_html_comments, convert_js_comment, CommentView, SvelteComment};
#[allow(unused_imports)]
use crate::comment::{html_comments, js_comment, js_comments};
use crate::diagnostic::{DiagnosticView, SvelteParseWarning};
use crate::order::{sort_by_start, ReadStart, StartsAt};
#[allow(unused_imports)]
use crate::order::{
    ascending, is_stable_sort, law_stable_sort_keeps_order_of_equals,
    law_stable_sort_keeps_values, law_stable_sort_sorts, lemma_all_start_at,
    lemma_is_the_stable_sort, lemma_views_of_stable_sort, stable_sort, starting_at, views,
};
use crate::script::{convert_script, SvelteScript, SvelteScriptKind};
#[allow(unused_imports)]
use crate::script::script_of;
#[allow(unused_imports)]
use crate::span::lines_fit;

verus! {

/// Parse payload for `.svelte` files.
#[derive(Debug, Clone, PartialEq, Eq)]
pub struct SvelteParseResult {
    pub scripts: Vec<SvelteScript>,
    pub comments: Vec<SvelteComment>,
    pub warnings: Vec<SvelteParseWarning>,
    pub top_level_node_count: usize,
}

/// What a [`SvelteParseResult`] says.
pub struct ParseResultView {
    pub scripts: Seq<SvelteScript>,
    pub comments: Seq<CommentView>,
    pub warnings: Seq<DiagnosticView>,
    pub top_level_node_count: usize,
}

impl View for SvelteParseResult {
    type V = ParseResultView;

    open spec fn view(&self) -> ParseResultView {
        ParseResultView {
            scripts: self.scripts@,
            comments: views(self.comments@),
            warnings: views(self.warnings@),
            top_level_node_count: self.top_level_node_count,
        }
    }
}

impl StartsAt for SvelteScript {
    open spec fn start_offset(self) -> u32 {
        self.tag_range.span.start
    }
}

impl ReadStart for SvelteScript {
    fn start(&self) -> (r: u32) {
        self.tag_range.span.start
    }
}

impl Root {
    /// Whether each script block has the context of its place.
    pub open spec fn well_formed(self) -> bool {
        &&& self.module matches Some(script) ==> script.context == ScriptContext::Module
        &&& self.instance matches Some(script) ==> script.context == ScriptContext::Default
    }
}

/// The script blocks of a component, module first.
pub open spec fn scripts_by_kind(bytes: Seq<u8>, root: Root) -> Seq<SvelteScript> {
    let module = match root.module {
        Some(script) => seq![script_of(bytes, SvelteScriptKind::Module, script)],
        None => Seq::empty(),
    };
    let instance = match root.instance {
        Some(script) => seq![script_of(bytes, SvelteScriptKind::Instance, script)],
        None => Seq::empty(),
    };
    module + instance
}

/// The comments of a component, those of the scripts and expressions first.
pub open spec fn comments_by_kind(bytes: Seq<u8>, root: Root) -> Seq<CommentView> {
    js_comments(bytes, root.comments@) + html_comments(bytes, root.fragment)
}

/// What is reported of a parsed component: its script blocks and its comments,
/// each in source order, and how many nodes its template has at the top level.
pub open spec fn payload_of(bytes: Seq<u8>, root: Root) -> ParseResultView {
    ParseResultView {
        scripts: stable_sort(scripts_by_kind(bytes, root)),
        comments: stable_sort(comments_by_kind(bytes, root)),
        warnings: Seq::empty(),
        top_level_node_count: root.fragment.nodes@.len() as usize,
    }
}

/// The payload lists script blocks in source order, and lists each block of the
/// component and no other.
pub proof fn law_payload_scripts_in_source_order(bytes: Seq<u8>, root: Root, script: SvelteScript)
    ensures
        ascending(payload_of(bytes, root).scripts),
        payload_of(bytes, root).scripts.len() == scripts_by_kind(bytes, root).len(),
        payload_of(bytes, root).scripts.contains(script) <==> scripts_by_kind(
            bytes,
            root,
        ).contains(script),
{
    let all = scripts_by_kind(bytes, root);
    law_stable_sort_sorts(all);
    law_stable_sort_keeps_values(all, stable_sort(all), script);
}

/// The payload lists comments in source order, and lists each comment of the
/// scripts and of the template, however deep, and no other.
pub proof fn law_payload_comments_in_source_order(
    bytes: Seq<u8>,
    root: Root,
    comment: CommentView,
)
    ensures
        ascending(payload_of(bytes, root).comments),
        payload_of(bytes, root).comments.len() == root.comments@.len() + html_comments(
            bytes,
            root.fragment,
        ).len(),
        payload_of(bytes, root).comments.contains(comment) <==> (js_comments(
            bytes,
            root.comments@,
        ).contains(comment) || html_comments(bytes, root.fragment).contains(comment)),
{
    let js = js_comments(bytes, root.comments@);
    let html = html_comments(bytes, root.fragment);
    let all = comments_by_kind(bytes, root);
    law_stable_sort_sorts(all);
    law_stable_sort_keeps_values(all, stable_sort(all), comment);
    if js.contains(comment) {
        let i = choose|i: int| 0 <= i < js.len() && js[i] == comment;
        assert(all[i] == comment);
    }
    if html.contains(comment) {
        let i = choose|i: int| 0 <= i < html.len() && html[i] == comment;
        assert(all[js.len() + i] == comment);
    }
}

/// Script blocks, comments and the node count of a parsed component.
pub fn build_parse_result(source: &str, root: &Root) -> (r: SvelteParseResult)
    requires
        lines_fit(encode_utf8(source@)),
        root.well_formed(),
    ensures
        r@ == payload_of(encode_utf8(source@), *root),
{
    let ghost bytes = encode_utf8(source@);
    let mut scripts: Vec<SvelteScript> = Vec::new();
    if let Some(script) = &root.module {
        scripts.push(convert_script(source, SvelteScriptKind::Module, script));
    }
    if let Some(script) = &root.instance {
        scripts.push(convert_script(source, SvelteScriptKind::Instance, script));
    }
    assert(scripts@ =~= scripts_by_kind(bytes, *root));
    sort_by_start(&mut scripts);
    proof {
        lemma_is_the_stable_sort(scripts_by_kind(bytes, *root), scripts@);
    }

    let mut comments: Vec<SvelteComment> = Vec::new();
    let mut index: usize = 0;
    while index < root.comments.len()
        invariant
            index <= root.comments@.len(),
            bytes == encode_utf8(source@),
            lines_fit(bytes),
            views(comments@) =~= js_comments(bytes, root.comments@.take(index as int)),
        decreases root.comments@.len() - index,
    {
        let comment = convert_js_comment(source, &root.comments[index]);
        let ghost done = root.comments@.take(index as int);
        proof {
            assert(root.comments@.take(index + 1) =~= done.push(root.comments@[index as int]));
            assert(js_comments(bytes, root.comments@.take(index + 1)) =~= js_comments(
                bytes,
                done,
            ).push(comment@));
            assert(views(comments@.push(comment)) =~= views(comments@).push(comment@));
        }
        comments.push(comment);
        index = index + 1;
    }
    assert(root.comments@.take(index as int) =~= root.comments@);
    collect_html_comments(source, &root.fragment, &mut comments);
    let ghost collected = comments@;
    sort_by_start(&mut comments);
    proof {
        lemma_views_of_stable_sort(collected, comments@);
    }

    let warnings: Vec<SvelteParseWarning> = Vec::new();
    assert(views(warnings@) =~= Seq::empty());
    SvelteParseResult {
        scripts,
        comments,
        warnings,
        top_level_node_count: root.fragment.nodes.len(),
    }
}

/// A payload says its scripts, comments and warnings, each in order, and its node
/// count.
pub proof fn law_payload_says_all_of_itself(payload: SvelteParseResult, i: int)
    ensures
        payload@.scripts == payload.scripts@,
        payload@.comments.len() == payload.comments@.len(),
        0 <= i < payload.comments@.len() ==> payload@.comments[i] == payload.comments@[i]@,
        payload@.warnings.len() == payload.warnings@.len(),
        0 <= i < payload.warnings@.len() ==> payload@.warnings[i] == payload.warnings@[i]@,
        payload@.top_level_node_count == payload.top_level_node_count,
{
}

/// A script block starts where its tag starts.
pub proof fn law_script_starts_with_its_tag(script: SvelteScript)
    ensures
        script.start_offset() == script.tag_range.span.start,
{
}

/// A component is consistent where its module block has the module context and its
/// instance block the default one.
pub proof fn law_component_is_consistent(root: Root)
    ensures
        root.well_formed() <==> (root.module is Some ==> root.module->0.context
            == ScriptContext::Module) && (root.instance is Some ==> root.instance->0.context
            == ScriptContext::Default),
{
}

/// The payload has each script block that the component has, and the one whose tag
/// starts first comes first; where they start together the module comes first.
pub proof fn law_payload_has_each_script(bytes: Seq<u8>, root: Root)
    ensures
        ({
            let scripts = payload_of(bytes, root).scripts;
            match (root.module, root.instance) {
                (None, None) => scripts.len() == 0,
                (Some(module), None) => scripts == seq![
                    script_of(bytes, SvelteScriptKind::Module, module),
                ],
                (None, Some(instance)) => scripts == seq![
                    script_of(bytes, SvelteScriptKind::Instance, instance),
                ],
                (Some(module), Some(instance)) => if module.start <= instance.start {
                    scripts == seq![
                        script_of(bytes, SvelteScriptKind::Module, module),
                        script_of(bytes, SvelteScriptKind::Instance, instance),
                    ]
                } else {
                    scripts == seq![
                        script_of(bytes, SvelteScriptKind::Instance, instance),
                        script_of(bytes, SvelteScriptKind::Module, module),
                    ]
                },
            }
        }),
{
    let all = scripts_by_kind(bytes, root);
    let scripts = payload_of(bytes, root).scripts;
    law_stable_sort_sorts(all);
    match (root.module, root.instance) {
        (None, None) => {},
        (Some(module), None) => {
            let m = script_of(bytes, SvelteScriptKind::Module, module);
            assert(all =~= seq![m]);
            law_stable_sort_keeps_values(all, scripts, scripts[0]);
            assert(scripts.contains(scripts[0]));
            assert(scripts =~= seq![m]);
        },
        (None, Some(instance)) => {
            let i = script_of(bytes, SvelteScriptKind::Instance, instance);
            assert(all =~= seq![i]);
            law_stable_sort_keeps_values(all, scripts, scripts[0]);
            assert(scripts.contains(scripts[0]));
            assert(scripts =~= seq![i]);
        },
        (Some(module), Some(instance)) => {
            let m = script_of(bytes, SvelteScriptKind::Module, module);
            let i = script_of(bytes, SvelteScriptKind::Instance, instance);
            assert(all =~= seq![m, i]);
            if module.start == instance.start {
                lemma_all_start_at(all, module.start);
                assert forall|k: int| 0 <= k < scripts.len() implies (
                #[trigger] scripts[k]).start_offset() == module.start by {
                    law_stable_sort_keeps_values(all, scripts, scripts[k]);
                    assert(scripts.contains(scripts[k]));
                }
                lemma_all_start_at(scripts, module.start);
                assert(starting_at(scripts, module.start) == starting_at(all, module.start));
            } else {
                assert(m.kind != i.kind);
                law_stable_sort_keeps_values(all, scripts, m);
                law_stable_sort_keeps_values(all, scripts, i);
                assert(all[0] == m && all[1] == i);
                assert(scripts.contains(m) && scripts.contains(i));
                assert(scripts[0].start_offset() <= scripts[1].start_offset());
                if module.start <= instance.start {
                    assert(scripts =~= seq![m, i]);
                } else {
                    assert(scripts =~= seq![i, m]);
                }
            }
        },
    }
}

/// The payload has all comments of the scripts and then of the template, sorted by
/// where they start; those that start together stay in that order.
pub proof fn law_payload_sorts_all_comments(
    bytes: Seq<u8>,
    root: Root,
    offset: u32,
    starts_there: spec_fn(CommentView) -> bool,
)
    requires
        forall|c: CommentView| #[trigger] starts_there(c) <==> c.range.span.start == offset,
    ensures
        ({
            let comments = payload_of(bytes, root).comments;
            &&& forall|i: int, j: int|
                0 <= i < j < comments.len() ==> (#[trigger] comments[i]).range.span.start <= (
                #[trigger] comments[j]).range.span.start
            &&& comments.len() == root.comments@.len() + html_comments(bytes, root.fragment).len()
            &&& comments.filter(starts_there) == (js_comments(bytes, root.comments@)
                + html_comments(bytes, root.fragment)).filter(starts_there)
        }),
{
    let all = comments_by_kind(bytes, root);
    let comments = payload_of(bytes, root).comments;
    law_stable_sort_sorts(all);
    law_stable_sort_keeps_order_of_equals(all, comments, offset, starts_there);
    assert forall|i: int, j: int| 0 <= i < j < comments.len() implies (
    #[trigger] comments[i]).range.span.start <= (#[trigger] comments[j]).range.span.start by {
        assert(comments[i].start_offset() <= comments[j].start_offset());
    }
}

/// A parsed component has no warnings yet, and as many top-level nodes as its
/// template has.
pub proof fn law_payload_counts_top_level_nodes(bytes: Seq<u8>, root: Root)
    ensures
        payload_of(bytes, root).warnings.len() == 0,
        payload_of(bytes, root).top_level_node_count == root.fragment.nodes@.len(),
{
    assert(root.fragment.nodes.len() == root.fragment.nodes@.len());
}

} // verus!
