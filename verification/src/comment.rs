//! Comments of the template and of the scripts.

use vstd::prelude::*;
use vstd::utf8::encode_utf8;

use crate::ast::{Fragment, JsComment, JsCommentKind, TemplateNode};
#[allow(unused_imports)]
use crate::ast::{
    fragment_nodes, law_every_fragment_of_a_node_is_below_it, law_nodes_of_joined_lists,
    law_nodes_of_short_lists, node_and_below, nodes_below, optional_nodes,
};
use crate::order::{ReadStart, StartsAt};
#[allow(unused_imports)]
use crate::order::views;
#[allow(unused_imports)]
use crate::span::{lines_fit, position_at, range_at};
use crate::span::SvelteSourceRange;

verus! {

/// Comment kind, normalized for the Oxc tools.
#[derive(Debug, Clone, Copy, PartialEq, Eq, Structural)]
pub enum SvelteCommentKind {
    Html,
    JsLine,
    JsBlock,
}

/// Comment captured from either Svelte markup or embedded JavaScript.
#[derive(Debug, Clone, PartialEq, Eq)]
pub struct SvelteComment {
    pub kind: SvelteCommentKind,
    pub range: SvelteSourceRange,
    pub text: String,
}

/// What a [`SvelteComment`] says.
pub struct CommentView {
    pub kind: SvelteCommentKind,
    pub range: SvelteSourceRange,
    pub text: Seq<char>,
}

impl View for SvelteComment {
    type V = CommentView;

    open spec fn view(&self) -> CommentView {
        CommentView { kind: self.kind, range: self.range, text: self.text@ }
    }
}

impl StartsAt for CommentView {
    open spec fn start_offset(self) -> u32 {
        self.range.span.start
    }
}

impl StartsAt for SvelteComment {
    open spec fn start_offset(self) -> u32 {
        self.range.span.start
    }
}

impl ReadStart for SvelteComment {
    fn start(&self) -> (r: u32) {
        self.range.span.start
    }
}

/// The comment that a template node is, or nothing.
pub open spec fn own_comment(bytes: Seq<u8>, node: TemplateNode) -> Seq<CommentView> {
    match node {
        TemplateNode::Comment(comment) => seq![
            CommentView {
                kind: SvelteCommentKind::Html,
                range: range_at(bytes, comment.start, comment.end),
                text: comment.data@,
            },
        ],
        _ => Seq::empty(),
    }
}

/// The comments among `nodes`.
pub open spec fn comments_among(bytes: Seq<u8>, nodes: Seq<TemplateNode>) -> Seq<CommentView> {
    nodes.flat_map(|node: TemplateNode| own_comment(bytes, node))
}

/// The HTML comments of a fragment, at any depth, in source order.
pub open spec fn html_comments(bytes: Seq<u8>, fragment: Fragment) -> Seq<CommentView> {
    comments_among(bytes, fragment_nodes(fragment))
}

/// What is reported of a JavaScript comment.
pub open spec fn js_comment(bytes: Seq<u8>, comment: JsComment) -> CommentView {
    CommentView {
        kind: match comment.kind {
            JsCommentKind::Line => SvelteCommentKind::JsLine,
            JsCommentKind::Block => SvelteCommentKind::JsBlock,
        },
        range: range_at(bytes, comment.start, comment.end),
        text: comment.value@,
    }
}

/// What is reported of JavaScript comments.
pub open spec fn js_comments(bytes: Seq<u8>, comments: Seq<JsComment>) -> Seq<CommentView> {
    comments.map_values(|comment: JsComment| js_comment(bytes, comment))
}

proof fn lemma_comments_among_concat(
    bytes: Seq<u8>,
    a: Seq<TemplateNode>,
    b: Seq<TemplateNode>,
)
    ensures
        comments_among(bytes, a + b) == comments_among(bytes, a) + comments_among(bytes, b),
{
    let f = |node: TemplateNode| own_comment(bytes, node);
    assert((a + b).map_values(f) =~= a.map_values(f) + b.map_values(f));
    vstd::seq_lib::lemma_flatten_concat(a.map_values(f), b.map_values(f));
}

proof fn lemma_comments_among_one(bytes: Seq<u8>, node: TemplateNode)
    ensures
        comments_among(bytes, seq![node]) == own_comment(bytes, node),
{
    let f = |node: TemplateNode| own_comment(bytes, node);
    seq![node].lemma_flat_map_singleton(f);
}

/// Collecting the comments of a fragment is collecting those of its parts in
/// turn, behind whatever was collected before, which stays as it is.
pub proof fn law_html_comments_of_joined_fragments(
    bytes: Seq<u8>,
    first: Fragment,
    second: Fragment,
    joined: Fragment,
    collected: Seq<CommentView>,
)
    requires
        joined.nodes@ == first.nodes@ + second.nodes@,
    ensures
        html_comments(bytes, joined) == html_comments(bytes, first) + html_comments(bytes, second),
        collected + html_comments(bytes, joined) == (collected + html_comments(bytes, first))
            + html_comments(bytes, second),
        collected.is_prefix_of(collected + html_comments(bytes, joined)),
{
    law_nodes_of_joined_lists(first.nodes@, second.nodes@);
    lemma_comments_among_concat(bytes, nodes_below(first.nodes@), nodes_below(second.nodes@));
    assert(collected + html_comments(bytes, joined) =~= (collected + html_comments(bytes, first))
        + html_comments(bytes, second));
    assert(collected =~= (collected + html_comments(bytes, joined)).subrange(
        0,
        collected.len() as int,
    ));
}

/// The kind and place of a JavaScript comment.
pub fn convert_js_comment(source: &str, comment: &JsComment) -> (r: SvelteComment)
    requires
        lines_fit(encode_utf8(source@)),
    ensures
        r@ == js_comment(encode_utf8(source@), *comment),
{
    let kind = match comment.kind {
        JsCommentKind::Line => SvelteCommentKind::JsLine,
        JsCommentKind::Block => SvelteCommentKind::JsBlock,
    };
    SvelteComment {
        kind,
        range: SvelteSourceRange::new(source, comment.start, comment.end),
        text: comment.value.clone(),
    }
}

/// Appends the HTML comments of `fragment`, at any depth, in source order.
pub fn collect_html_comments(
    source: &str,
    fragment: &Fragment,
    comments: &mut Vec<SvelteComment>,
)
    requires
        lines_fit(encode_utf8(source@)),
    ensures
        views(final(comments)@) == views(old(comments)@) + html_comments(
            encode_utf8(source@),
            *fragment,
        ),
        old(comments)@.is_prefix_of(final(comments)@),
    decreases *fragment,
{
    let ghost bytes = encode_utf8(source@);
    let ghost collected = comments@;
    let ghost before = views(comments@);
    let ghost nodes = fragment.nodes@;
    assert(nodes.take(0) =~= Seq::empty());
    assert(comments_among(bytes, Seq::empty()) =~= Seq::empty());
    let mut index: usize = 0;
    while index < fragment.nodes.len()
        invariant
            index <= nodes.len(),
            nodes == fragment.nodes@,
            bytes == encode_utf8(source@),
            lines_fit(bytes),
            collected.is_prefix_of(comments@),
            views(comments@) == before + comments_among(
                bytes,
                nodes_below(nodes.take(index as int)),
            ),
        decreases nodes.len() - index,
    {
        proof {
            assert(decreases_to!(*fragment => fragment.nodes));
            assert(decreases_to!(fragment.nodes => fragment.nodes@));
            assert(decreases_to!(fragment.nodes@ => fragment.nodes@[index as int]));
            assert(nodes.take(index + 1).drop_last() =~= nodes.take(index as int));
            lemma_comments_among_concat(
                bytes,
                nodes_below(nodes.take(index as int)),
                node_and_below(nodes[index as int]),
            );
        }
        collect_html_comments_from_node(source, &fragment.nodes[index], comments);
        index = index + 1;
    }
    assert(nodes.take(nodes.len() as int) =~= nodes);
}

/// Appends the HTML comments of `node` and of what is inside it, in source order.
pub fn collect_html_comments_from_node(
    source: &str,
    node: &TemplateNode,
    comments: &mut Vec<SvelteComment>,
)
    requires
        lines_fit(encode_utf8(source@)),
    ensures
        views(final(comments)@) == views(old(comments)@) + comments_among(
            encode_utf8(source@),
            node_and_below(*node),
        ),
        old(comments)@.is_prefix_of(final(comments)@),
    decreases *node,
{
    let ghost bytes = encode_utf8(source@);
    let ghost before = views(comments@);
    proof {
        lemma_comments_among_one(bytes, *node);
        assert(comments_among(bytes, Seq::empty()) =~= Seq::empty());
        lemma_comments_among_concat(bytes, seq![*node], node_and_below(*node).drop_first());
        assert(seq![*node] + node_and_below(*node).drop_first() =~= node_and_below(*node));
    }
    match node {
        TemplateNode::Comment(comment) => {
            comments.push(
                SvelteComment {
                    kind: SvelteCommentKind::Html,
                    range: SvelteSourceRange::new(source, comment.start, comment.end),
                    text: comment.data.clone(),
                },
            );
            assert(node_and_below(*node) =~= seq![*node]);
            assert(views(comments@) =~= before + own_comment(bytes, *node));
        },
        TemplateNode::IfBlock(block) => {
            proof {
                lemma_comments_among_concat(
                    bytes,
                    fragment_nodes(block.consequent),
                    optional_nodes(block.alternate),
                );
                assert(node_and_below(*node).drop_first() =~= fragment_nodes(block.consequent)
                    + optional_nodes(block.alternate));
            }
            collect_html_comments(source, &block.consequent, comments);
            if let Some(alternate) = &block.alternate {
                collect_html_comments(source, alternate, comments);
            }
        },
        TemplateNode::EachBlock(block) => {
            proof {
                lemma_comments_among_concat(
                    bytes,
                    fragment_nodes(block.body),
                    optional_nodes(block.fallback),
                );
                assert(node_and_below(*node).drop_first() =~= fragment_nodes(block.body)
                    + optional_nodes(block.fallback));
            }
            collect_html_comments(source, &block.body, comments);
            if let Some(fallback) = &block.fallback {
                collect_html_comments(source, fallback, comments);
            }
        },
        TemplateNode::AwaitBlock(block) => {
            proof {
                let first = optional_nodes(block.pending) + optional_nodes(block.then_branch);
                lemma_comments_among_concat(
                    bytes,
                    optional_nodes(block.pending),
                    optional_nodes(block.then_branch),
                );
                lemma_comments_among_concat(bytes, first, optional_nodes(block.catch_branch));
                assert(node_and_below(*node).drop_first() =~= first + optional_nodes(
                    block.catch_branch,
                ));
            }
            if let Some(fragment) = &block.pending {
                collect_html_comments(source, fragment, comments);
            }
            if let Some(fragment) = &block.then_branch {
                collect_html_comments(source, fragment, comments);
            }
            if let Some(fragment) = &block.catch_branch {
                collect_html_comments(source, fragment, comments);
            }
        },
        TemplateNode::Component(component) => {
            assert(node_and_below(*node).drop_first() =~= fragment_nodes(component.fragment));
            collect_html_comments(source, &component.fragment, comments);
        },
        TemplateNode::KeyBlock(fragment)
        | TemplateNode::SnippetBlock(fragment)
        | TemplateNode::RegularElement(fragment)
        | TemplateNode::TitleElement(fragment)
        | TemplateNode::SlotElement(fragment)
        | TemplateNode::SvelteBody(fragment)
        | TemplateNode::SvelteDocument(fragment)
        | TemplateNode::SvelteFragment(fragment)
        | TemplateNode::SvelteBoundary(fragment)
        | TemplateNode::SvelteHead(fragment)
        | TemplateNode::SvelteOptions(fragment)
        | TemplateNode::SvelteSelf(fragment)
        | TemplateNode::SvelteWindow(fragment)
        | TemplateNode::SvelteComponent(fragment)
        | TemplateNode::SvelteElement(fragment) => {
            assert(node_and_below(*node).drop_first() =~= fragment_nodes(*fragment));
            collect_html_comments(source, fragment, comments);
        },
        TemplateNode::Text
        | TemplateNode::ExpressionTag
        | TemplateNode::HtmlTag
        | TemplateNode::ConstTag
        | TemplateNode::DeclarationTag
        | TemplateNode::DebugTag
        | TemplateNode::RenderTag
        | TemplateNode::AttachTag => {
            assert(node_and_below(*node) =~= seq![*node]);
        },
    }
}

/// A comment says its kind, its range and its text, and starts where its range
/// starts.
pub proof fn law_comment_says_all_of_itself(comment: SvelteComment)
    ensures
        comment@.kind == comment.kind,
        comment@.range == comment.range,
        comment@.text == comment.text@,
        comment.start_offset() == comment.range.span.start,
        comment@.start_offset() == comment.range.span.start,
{
}

/// A JavaScript comment keeps its text and its place, and is reported by how it is
/// written.
pub proof fn law_js_comment_is_kept(bytes: Seq<u8>, comment: JsComment)
    ensures
        comment.kind == JsCommentKind::Line ==> js_comment(bytes, comment).kind
            == SvelteCommentKind::JsLine,
        comment.kind == JsCommentKind::Block ==> js_comment(bytes, comment).kind
            == SvelteCommentKind::JsBlock,
        js_comment(bytes, comment).text == comment.value@,
        js_comment(bytes, comment).range.span.start == comment.start,
        js_comment(bytes, comment).range.span.end == comment.end,
        js_comment(bytes, comment).range.start == position_at(bytes, comment.start),
        js_comment(bytes, comment).range.end == position_at(bytes, comment.end),
{
}

/// Each JavaScript comment is reported once, in the order in which they come.
pub proof fn law_js_comments_are_reported_one_by_one(
    bytes: Seq<u8>,
    comments: Seq<JsComment>,
    i: int,
)
    ensures
        js_comments(bytes, comments).len() == comments.len(),
        0 <= i < comments.len() ==> js_comments(bytes, comments)[i] == js_comment(
            bytes,
            comments[i],
        ),
{
}

/// A fragment that is one comment has that comment; one that is a block or an element has the comments of each fragment in
/// it, in the order in which they are written, whichever of them are there; any
/// other has none.
pub proof fn law_html_comments_of_one_node(bytes: Seq<u8>, node: TemplateNode, alone: Fragment)
    requires
        alone.nodes@ == seq![node],
    ensures
        comments_among(bytes, node_and_below(node)) == html_comments(bytes, alone),
        ({
            let all = html_comments(bytes, alone);
            match node {
                TemplateNode::Comment(comment) => {
                    &&& all.len() == 1
                    &&& all[0].kind == SvelteCommentKind::Html
                    &&& all[0].text == comment.data@
                    &&& all[0].range.span.start == comment.start
                    &&& all[0].range.span.end == comment.end
                    &&& all[0].range.start == position_at(bytes, comment.start)
                    &&& all[0].range.end == position_at(bytes, comment.end)
                },
                TemplateNode::IfBlock(block) => all == html_comments(bytes, block.consequent) + (
                match block.alternate {
                    Some(alternate) => html_comments(bytes, alternate),
                    None => Seq::empty(),
                }),
                TemplateNode::EachBlock(block) => all == html_comments(bytes, block.body) + (
                match block.fallback {
                    Some(fallback) => html_comments(bytes, fallback),
                    None => Seq::empty(),
                }),
                TemplateNode::AwaitBlock(block) => all == (match block.pending {
                    Some(pending) => html_comments(bytes, pending),
                    None => Seq::empty(),
                }) + (match block.then_branch {
                    Some(then_branch) => html_comments(bytes, then_branch),
                    None => Seq::empty(),
                }) + (match block.catch_branch {
                    Some(catch_branch) => html_comments(bytes, catch_branch),
                    None => Seq::empty(),
                }),
                TemplateNode::Component(component) => all == html_comments(
                    bytes,
                    component.fragment,
                ),
                TemplateNode::KeyBlock(inside)
                | TemplateNode::SnippetBlock(inside)
                | TemplateNode::RegularElement(inside)
                | TemplateNode::TitleElement(inside)
                | TemplateNode::SlotElement(inside)
                | TemplateNode::SvelteBody(inside)
                | TemplateNode::SvelteDocument(inside)
                | TemplateNode::SvelteFragment(inside)
                | TemplateNode::SvelteBoundary(inside)
                | TemplateNode::SvelteHead(inside)
                | TemplateNode::SvelteOptions(inside)
                | TemplateNode::SvelteSelf(inside)
                | TemplateNode::SvelteWindow(inside)
                | TemplateNode::SvelteComponent(inside)
                | TemplateNode::SvelteElement(inside) => all == html_comments(bytes, inside),
                TemplateNode::Text
                | TemplateNode::ExpressionTag
                | TemplateNode::HtmlTag
                | TemplateNode::ConstTag
                | TemplateNode::DeclarationTag
                | TemplateNode::DebugTag
                | TemplateNode::RenderTag
                | TemplateNode::AttachTag => all.len() == 0,
            }
        }),
{
    law_nodes_of_short_lists(node);
    law_every_fragment_of_a_node_is_below_it(node);
    let below = node_and_below(node).drop_first();
    assert(node_and_below(node) =~= seq![node] + below);
    lemma_comments_among_concat(bytes, seq![node], below);
    lemma_comments_among_one(bytes, node);
    assert(comments_among(bytes, Seq::empty()) =~= Seq::empty());
    assert(own_comment(bytes, node) + comments_among(bytes, below) == html_comments(bytes, alone));
    match node {
        TemplateNode::IfBlock(block) => {
            lemma_comments_among_concat(
                bytes,
                fragment_nodes(block.consequent),
                optional_nodes(block.alternate),
            );
        },
        TemplateNode::EachBlock(block) => {
            lemma_comments_among_concat(
                bytes,
                fragment_nodes(block.body),
                optional_nodes(block.fallback),
            );
        },
        TemplateNode::AwaitBlock(block) => {
            let first = optional_nodes(block.pending) + optional_nodes(block.then_branch);
            lemma_comments_among_concat(
                bytes,
                optional_nodes(block.pending),
                optional_nodes(block.then_branch),
            );
            lemma_comments_among_concat(bytes, first, optional_nodes(block.catch_branch));
        },
        TemplateNode::Comment(_) => {
            assert(below =~= Seq::empty());
        },
        _ => {
            assert(below.len() == 0 ==> below =~= Seq::empty());
            assert(own_comment(bytes, node) + comments_among(bytes, below) =~= comments_among(
                bytes,
                below,
            ));
        },
    }
}

/// A fragment without nodes has no comments.
pub proof fn law_empty_fragment_has_no_comments(bytes: Seq<u8>, fragment: Fragment)
    requires
        fragment.nodes@.len() == 0,
    ensures
        html_comments(bytes, fragment).len() == 0,
{
    assert(comments_among(bytes, Seq::empty()) =~= Seq::empty());
}

} // verus!
