//! What the Svelte compiler answers, as plain values.
//!
//! These types hold the parts of a compiled component that the adapter reads.
//! Everything else about a node is left out.

use vstd::prelude::*;

verus! {

/// A parsed component.
#[derive(Debug)]
pub struct Root {
    pub fragment: Fragment,
    /// JavaScript comments, in the order in which the parser met them.
    pub comments: Vec<JsComment>,
    pub instance: Option<Script>,
    pub module: Option<Script>,
}

/// Whether a script block belongs to each instance or to the module.
#[derive(Debug, Clone, Copy, PartialEq, Eq, Structural)]
pub enum ScriptContext {
    Default,
    Module,
}

/// A `<script>` block.
#[derive(Debug)]
pub struct Script {
    /// Where the tag starts.
    pub start: u32,
    /// Where the tag ends.
    pub end: u32,
    /// Where the body starts.
    pub content_offset: u32,
    pub context: ScriptContext,
    pub is_typescript: bool,
    /// The statements at the top level of the program.
    pub body: Vec<Statement>,
}

/// A statement at the top level of a script.
#[derive(Debug)]
pub enum Statement {
    ImportDeclaration(Vec<ImportSpecifier>),
    Other,
}

/// One specifier of an import declaration.
#[derive(Debug)]
pub struct ImportSpecifier {
    /// The node that names the import in this module, where there is one.
    pub local: Option<LocalName>,
}

/// The node that names an import.
#[derive(Debug)]
pub enum LocalName {
    Identifier { name: String, start: u32 },
    Other,
}

/// How a JavaScript comment is written.
#[derive(Debug, Clone, Copy, PartialEq, Eq, Structural)]
pub enum JsCommentKind {
    Line,
    Block,
}

/// A JavaScript comment.
#[derive(Debug)]
pub struct JsComment {
    pub kind: JsCommentKind,
    pub start: u32,
    pub end: u32,
    pub value: String,
}

/// A list of template nodes.
#[derive(Debug)]
pub struct Fragment {
    pub nodes: Vec<TemplateNode>,
}

/// An HTML comment.
#[derive(Debug)]
pub struct Comment {
    pub start: u32,
    pub end: u32,
    pub data: String,
}

/// `{#if}` with its `{:else}`.
#[derive(Debug)]
pub struct IfBlock {
    pub consequent: Fragment,
    pub alternate: Option<Fragment>,
}

/// `{#each}` with its `{:else}`.
#[derive(Debug)]
pub struct EachBlock {
    pub body: Fragment,
    pub fallback: Option<Fragment>,
}

/// `{#await}` with its `{:then}` and `{:catch}`.
#[derive(Debug)]
pub struct AwaitBlock {
    pub pending: Option<Fragment>,
    pub then_branch: Option<Fragment>,
    pub catch_branch: Option<Fragment>,
}

/// A component tag.
#[derive(Debug)]
pub struct Component {
    /// Indices of the bindings that the tag refers to; the analysis fills them in.
    pub references: Vec<usize>,
    pub fragment: Fragment,
}

/// A node of the template.
#[derive(Debug)]
pub enum TemplateNode {
    Text,
    Comment(Comment),
    ExpressionTag,
    HtmlTag,
    ConstTag,
    DeclarationTag,
    DebugTag,
    RenderTag,
    AttachTag,
    IfBlock(IfBlock),
    EachBlock(EachBlock),
    AwaitBlock(AwaitBlock),
    KeyBlock(Fragment),
    SnippetBlock(Fragment),
    RegularElement(Fragment),
    Component(Component),
    TitleElement(Fragment),
    SlotElement(Fragment),
    SvelteBody(Fragment),
    SvelteDocument(Fragment),
    SvelteFragment(Fragment),
    SvelteBoundary(Fragment),
    SvelteHead(Fragment),
    SvelteOptions(Fragment),
    SvelteSelf(Fragment),
    SvelteWindow(Fragment),
    SvelteComponent(Fragment),
    SvelteElement(Fragment),
}

/// The nodes of a fragment and all nodes below them, in source order: a node
/// comes before what is inside it.
pub open spec fn fragment_nodes(fragment: Fragment) -> Seq<TemplateNode>
    decreases fragment,
{
    nodes_below(fragment.nodes@)
}

/// The nodes of a list and all nodes below them.
pub open spec fn nodes_below(nodes: Seq<TemplateNode>) -> Seq<TemplateNode>
    decreases nodes,
{
    if nodes.len() == 0 {
        Seq::empty()
    } else {
        nodes_below(nodes.drop_last()) + node_and_below(nodes.last())
    }
}

/// A node and all nodes below it.
pub open spec fn node_and_below(node: TemplateNode) -> Seq<TemplateNode>
    decreases node,
{
    seq![node] + match node {
        TemplateNode::Text
        | TemplateNode::Comment(_)
        | TemplateNode::ExpressionTag
        | TemplateNode::HtmlTag
        | TemplateNode::ConstTag
        | TemplateNode::DeclarationTag
        | TemplateNode::DebugTag
        | TemplateNode::RenderTag
        | TemplateNode::AttachTag => Seq::empty(),
        TemplateNode::IfBlock(block) => fragment_nodes(block.consequent)
            + optional_nodes(block.alternate),
        TemplateNode::EachBlock(block) => fragment_nodes(block.body)
            + optional_nodes(block.fallback),
        TemplateNode::AwaitBlock(block) => optional_nodes(block.pending)
            + optional_nodes(block.then_branch) + optional_nodes(block.catch_branch),
        TemplateNode::Component(component) => fragment_nodes(component.fragment),
        TemplateNode::KeyBlock(fragment)
        | TemplateNode::SnippetBlock(fragment)
        | TemplateNode::RegularElement(fragment)
        | TemplateNode::TitleElement(fragment)
        | TemplateNode::SlotElement(fragment)
        | TemplateNode::SvelteBody(fragment)
        | TemplateNode::SvelteDocument(fragment)
        | TemplateNode::SvelteFragment(fragment)
        | TemplateNode::SvelteBoundary(fragment)
        | TemplateNode::SvelteHead(fragment)
        | TemplateNode::SvelteOptions(fragment)
        | TemplateNode::SvelteSelf(fragment)
        | TemplateNode::SvelteWindow(fragment)
        | TemplateNode::SvelteComponent(fragment)
        | TemplateNode::SvelteElement(fragment) => fragment_nodes(fragment),
    }
}

/// The nodes of a fragment that may be missing.
pub open spec fn optional_nodes(fragment: Option<Fragment>) -> Seq<TemplateNode>
    decreases fragment,
{
    match fragment {
        Some(fragment) => fragment_nodes(fragment),
        None => Seq::empty(),
    }
}

/// The nodes of two lists put together, and all nodes below them, are those of
/// the first list and then those of the second.
pub proof fn law_nodes_of_joined_lists(first: Seq<TemplateNode>, second: Seq<TemplateNode>)
    ensures
        nodes_below(first + second) == nodes_below(first) + nodes_below(second),
    decreases second.len(),
{
    if second.len() == 0 {
        assert(first + second =~= first);
        assert(nodes_below(first) + nodes_below(second) =~= nodes_below(first));
    } else {
        let joined = first + second;
        assert(joined.drop_last() =~= first + second.drop_last());
        law_nodes_of_joined_lists(first, second.drop_last());
        assert((nodes_below(first) + nodes_below(second.drop_last())) + node_and_below(
            second.last(),
        ) =~= nodes_below(first) + (nodes_below(second.drop_last()) + node_and_below(
            second.last(),
        )));
    }
}

/// A list without nodes has nothing below it, and a list of one node has that node
/// and what is below it.
pub proof fn law_nodes_of_short_lists(node: TemplateNode)
    ensures
        nodes_below(Seq::empty()) == Seq::<TemplateNode>::empty(),
        nodes_below(seq![node]) == node_and_below(node),
{
    assert(seq![node].drop_last() =~= Seq::empty());
    assert(nodes_below(seq![node].drop_last()) + node_and_below(node) =~= node_and_below(node));
}

/// Below a node without fragments there is only the node itself; a node with
/// fragments comes first, and behind it comes all that is in each of its fragments,
/// in the order in which they are written, whichever of them are there.
pub proof fn law_every_fragment_of_a_node_is_below_it(node: TemplateNode)
    ensures
        node_and_below(node).len() > 0,
        node_and_below(node)[0] == node,
        ({
            let below = node_and_below(node).drop_first();
            match node {
                TemplateNode::IfBlock(block) => below == nodes_below(block.consequent.nodes@) + (
                match block.alternate {
                    Some(alternate) => nodes_below(alternate.nodes@),
                    None => Seq::empty(),
                }),
                TemplateNode::EachBlock(block) => below == nodes_below(block.body.nodes@) + (
                match block.fallback {
                    Some(fallback) => nodes_below(fallback.nodes@),
                    None => Seq::empty(),
                }),
                TemplateNode::AwaitBlock(block) => below == (match block.pending {
                    Some(pending) => nodes_below(pending.nodes@),
                    None => Seq::empty(),
                }) + (match block.then_branch {
                    Some(then_branch) => nodes_below(then_branch.nodes@),
                    None => Seq::empty(),
                }) + (match block.catch_branch {
                    Some(catch_branch) => nodes_below(catch_branch.nodes@),
                    None => Seq::empty(),
                }),
                TemplateNode::Component(component) => below == nodes_below(
                    component.fragment.nodes@,
                ),
                TemplateNode::KeyBlock(inside)
                | TemplateNode::SnippetBlock(inside)
                | TemplateNode::RegularElement(inside)
                | TemplateNode::TitleElement(inside)
                | TemplateNode::SlotElement(inside)
                | TemplateNode::SvelteBody(inside)
                | TemplateNode::SvelteDocument(inside)
                | TemplateNode::SvelteFragment(inside)
                | TemplateNode::SvelteBoundary(inside)
                | TemplateNode::SvelteHead(inside)
                | TemplateNode::SvelteOptions(inside)
                | TemplateNode::SvelteSelf(inside)
                | TemplateNode::SvelteWindow(inside)
                | TemplateNode::SvelteComponent(inside)
                | TemplateNode::SvelteElement(inside) => below == nodes_below(inside.nodes@),
                TemplateNode::Text
                | TemplateNode::Comment(_)
                | TemplateNode::ExpressionTag
                | TemplateNode::HtmlTag
                | TemplateNode::ConstTag
                | TemplateNode::DeclarationTag
                | TemplateNode::DebugTag
                | TemplateNode::RenderTag
                | TemplateNode::AttachTag => below.len() == 0,
            }
        }),
{
    let all = node_and_below(node);
    match node {
        TemplateNode::IfBlock(block) => {
            assert(all.drop_first() =~= fragment_nodes(block.consequent) + optional_nodes(
                block.alternate,
            ));
        },
        TemplateNode::EachBlock(block) => {
            assert(all.drop_first() =~= fragment_nodes(block.body) + optional_nodes(
                block.fallback,
            ));
        },
        TemplateNode::AwaitBlock(block) => {
            assert(all.drop_first() =~= optional_nodes(block.pending) + optional_nodes(
                block.then_branch,
            ) + optional_nodes(block.catch_branch));
        },
        TemplateNode::Component(component) => {
            assert(all.drop_first() =~= fragment_nodes(component.fragment));
        },
        TemplateNode::KeyBlock(inside)
        | TemplateNode::SnippetBlock(inside)
        | TemplateNode::RegularElement(inside)
        | TemplateNode::TitleElement(inside)
        | TemplateNode::SlotElement(inside)
        | TemplateNode::SvelteBody(inside)
        | TemplateNode::SvelteDocument(inside)
        | TemplateNode::SvelteFragment(inside)
        | TemplateNode::SvelteBoundary(inside)
        | TemplateNode::SvelteHead(inside)
        | TemplateNode::SvelteOptions(inside)
        | TemplateNode::SvelteSelf(inside)
        | TemplateNode::SvelteWindow(inside)
        | TemplateNode::SvelteComponent(inside)
        | TemplateNode::SvelteElement(inside) => {
            assert(all.drop_first() =~= fragment_nodes(inside));
        },
        _ => {},
    }
}

/// The nodes of a fragment are those of its list.
pub proof fn law_fragment_has_the_nodes_of_its_list(fragment: Fragment)
    ensures
        fragment_nodes(fragment) == nodes_below(fragment.nodes@),
{
}

/// Every node of a list, and every node below it, is below the list.
pub proof fn law_nodes_of_a_list_are_below_it(nodes: Seq<TemplateNode>, i: int, k: int)
    requires
        0 <= i < nodes.len(),
        0 <= k < node_and_below(nodes[i]).len(),
    ensures
        nodes_below(nodes).contains(nodes[i]),
        nodes_below(nodes).contains(node_and_below(nodes[i])[k]),
{
    let child = nodes[i];
    assert(nodes =~= nodes.take(i) + seq![child] + nodes.skip(i + 1));
    law_nodes_of_joined_lists(nodes.take(i), seq![child]);
    law_nodes_of_joined_lists(nodes.take(i) + seq![child], nodes.skip(i + 1));
    law_nodes_of_short_lists(child);
    law_every_fragment_of_a_node_is_below_it(child);
    let before = nodes_below(nodes.take(i)).len();
    assert(nodes_below(nodes)[before as int] == child);
    assert(nodes_below(nodes)[before + k] == node_and_below(child)[k]);
}

/// Every node of every fragment that a node holds is below that node, and so is all
/// that is below it, whatever else the node holds.
pub proof fn law_children_are_below_their_node(
    node: TemplateNode,
    fragment: Fragment,
    i: int,
    k: int,
)
    requires
        match node {
            TemplateNode::IfBlock(block) => block.consequent == fragment || block.alternate == Some(
                fragment,
            ),
            TemplateNode::EachBlock(block) => block.body == fragment || block.fallback == Some(
                fragment,
            ),
            TemplateNode::AwaitBlock(block) => block.pending == Some(fragment)
                || block.then_branch == Some(fragment) || block.catch_branch == Some(fragment),
            TemplateNode::Component(component) => component.fragment == fragment,
            TemplateNode::KeyBlock(inside)
            | TemplateNode::SnippetBlock(inside)
            | TemplateNode::RegularElement(inside)
            | TemplateNode::TitleElement(inside)
            | TemplateNode::SlotElement(inside)
            | TemplateNode::SvelteBody(inside)
            | TemplateNode::SvelteDocument(inside)
            | TemplateNode::SvelteFragment(inside)
            | TemplateNode::SvelteBoundary(inside)
            | TemplateNode::SvelteHead(inside)
            | TemplateNode::SvelteOptions(inside)
            | TemplateNode::SvelteSelf(inside)
            | TemplateNode::SvelteWindow(inside)
            | TemplateNode::SvelteComponent(inside)
            | TemplateNode::SvelteElement(inside) => inside == fragment,
            _ => false,
        },
        0 <= i < fragment.nodes@.len(),
        0 <= k < node_and_below(fragment.nodes@[i]).len(),
    ensures
        node_and_below(node).contains(fragment.nodes@[i]),
        node_and_below(node).contains(node_and_below(fragment.nodes@[i])[k]),
{
    law_nodes_of_a_list_are_below_it(fragment.nodes@, i, k);
    law_every_fragment_of_a_node_is_below_it(node);
    let all = node_and_below(node);
    let below = all.drop_first();
    let held = nodes_below(fragment.nodes@);
    let skipped: int = match node {
        TemplateNode::IfBlock(block) => if block.consequent == fragment {
            0
        } else {
            nodes_below(block.consequent.nodes@).len() as int
        },
        TemplateNode::EachBlock(block) => if block.body == fragment {
            0
        } else {
            nodes_below(block.body.nodes@).len() as int
        },
        TemplateNode::AwaitBlock(block) => {
            let pending = optional_nodes(block.pending).len() as int;
            if block.pending == Some(fragment) {
                0
            } else if block.then_branch == Some(fragment) {
                pending
            } else {
                pending + optional_nodes(block.then_branch).len() as int
            }
        },
        _ => 0,
    };
    assert forall|x: TemplateNode| held.contains(x) implies #[trigger] all.contains(x) by {
        let m = choose|m: int| 0 <= m < held.len() && held[m] == x;
        assert(below[skipped + m] == x);
        assert(all[skipped + m + 1] == x);
    }
}

} // verus!
