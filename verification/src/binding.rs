//! Bindings of a component, and where they are declared.

use vstd::prelude::*;
use vstd::utf8::encode_utf8;

use crate::ast::{Fragment, ImportSpecifier, LocalName, Root, Script, Statement, TemplateNode};
#[allow(unused_imports)]
use crate::ast::{
    fragment_nodes, law_every_fragment_of_a_node_is_below_it, law_nodes_of_joined_lists,
    law_nodes_of_short_lists, node_and_below, nodes_below, optional_nodes,
};
use crate::script::SvelteScript;
#[allow(unused_imports)]
use crate::search::{
    first_where, law_first_where_is_first, lemma_first_where_at, lemma_first_where_concat,
    lemma_first_where_fits, lemma_first_where_none, lemma_first_where_none_in_flat_map,
    lemma_flat_map_split,
};
#[allow(unused_imports)]
use crate::text::name_at;
use crate::text::{is_name_at, same_text};

verus! {

/// What a binding is, as far as it matters here.
#[derive(Debug, Clone, Copy, PartialEq, Eq, Structural)]
pub enum BindingKind {
    /// A prop that the parent may bind to.
    BindableProp,
    /// The subscription that a `$store` name stands for.
    StoreSub,
    Other,
}

/// A place that refers to a binding.
#[derive(Debug, Clone, Copy, PartialEq, Eq, Structural)]
pub struct Reference {
    pub start: u32,
    pub end: u32,
    /// The reference stands in the template.
    pub is_template_reference: bool,
    /// The reference is the declaration itself.
    pub is_self_declaration: bool,
}

/// A binding that the analysis found.
#[derive(Debug)]
pub struct Binding {
    pub name: String,
    pub kind: BindingKind,
    pub references: Vec<Reference>,
    /// Where the analysis saw the declaration. The offset may count from the
    /// start of the source or from the start of a script body.
    pub declaration_start: Option<u32>,
    /// The scope that declares the binding; scope zero is the module.
    pub scope_index: usize,
    /// The binding is assigned or mutated.
    pub is_updated: bool,
    /// For a store subscription, the index of the binding that the name behind
    /// the `$` resolves to from the instance scope (see [`store_name`]).
    pub store_target: Option<usize>,
}

/// Whether `offset` lies in the body of `script`.
pub open spec fn in_body(script: SvelteScript, offset: u32) -> bool {
    script.body_range.span.start <= offset < script.body_range.span.end
}

/// Whether the name of `binding` stands in the text at `offset`.
pub open spec fn is_named_at(bytes: Seq<u8>, binding: Binding, offset: u32) -> bool {
    name_at(bytes, offset as int, encode_utf8(binding.name@))
}

/// Where the first self-declaring reference stands, if the name is there.
pub open spec fn self_declared_start(bytes: Seq<u8>, binding: Binding) -> Option<u32> {
    match first_where(binding.references@, |reference: Reference| reference.is_self_declaration) {
        Some(reference) if is_named_at(bytes, binding, reference.start) => Some(reference.start),
        _ => None,
    }
}

/// The recorded declaration, if the name is there; otherwise the recorded
/// offset less the start of the first script body for which the name is there.
pub open spec fn recorded_start(
    bytes: Seq<u8>,
    binding: Binding,
    scripts: Seq<SvelteScript>,
) -> Option<u32> {
    match binding.declaration_start {
        Some(start) => if is_named_at(bytes, binding, start) {
            Some(start)
        } else {
            match first_where(scripts, |script: SvelteScript| fits_shifted(bytes, binding, start, script)) {
                Some(script) => Some((start - script.body_range.span.start) as u32),
                None => None,
            }
        },
        None => None,
    }
}

/// Whether the name stands at `start` less the start of the body of `script`.
pub open spec fn fits_shifted(
    bytes: Seq<u8>,
    binding: Binding,
    start: u32,
    script: SvelteScript,
) -> bool {
    &&& script.body_range.span.start <= start
    &&& is_named_at(bytes, binding, (start - script.body_range.span.start) as u32)
}

/// The names that one import specifier brings in.
pub open spec fn specifier_locals(specifier: ImportSpecifier) -> Seq<LocalName> {
    match specifier.local {
        Some(local) => seq![local],
        None => Seq::empty(),
    }
}

/// The names that one statement imports.
pub open spec fn statement_locals(statement: Statement) -> Seq<LocalName> {
    match statement {
        Statement::ImportDeclaration(specifiers) => specifiers@.flat_map(
            |specifier: ImportSpecifier| specifier_locals(specifier),
        ),
        Statement::Other => Seq::empty(),
    }
}

/// The names that a script imports, in source order.
pub open spec fn import_locals(script: Script) -> Seq<LocalName> {
    script.body@.flat_map(|statement: Statement| statement_locals(statement))
}

/// Whether an import brings in `binding`, and its name is there.
pub open spec fn imports_binding(bytes: Seq<u8>, binding: Binding, local: LocalName) -> bool {
    match local {
        LocalName::Identifier { name, start } => name@ == binding.name@ && is_named_at(
            bytes,
            binding,
            start,
        ),
        LocalName::Other => false,
    }
}

/// Where the first import that brings in `binding` names it.
pub open spec fn imported_start(bytes: Seq<u8>, binding: Binding, script: Script) -> Option<u32> {
    match first_where(
        import_locals(script),
        |local: LocalName| imports_binding(bytes, binding, local),
    ) {
        Some(LocalName::Identifier { start, .. }) => Some(start),
        _ => None,
    }
}

/// Where `binding` is declared: at its self-declaring reference, at the recorded
/// declaration, or at an import of the script block that it belongs to, whichever
/// of these is the first to have the name in the text.
pub open spec fn declaration_of(
    bytes: Seq<u8>,
    binding: Binding,
    root: Root,
    scripts: Seq<SvelteScript>,
) -> Option<u32> {
    if let Some(start) = self_declared_start(bytes, binding) {
        Some(start)
    } else if let Some(start) = recorded_start(bytes, binding, scripts) {
        Some(start)
    } else {
        let script = if binding.scope_index == 0 {
            root.module
        } else {
            root.instance
        };
        match script {
            Some(script) => imported_start(bytes, binding, script),
            None => None,
        }
    }
}

/// A declaration has the name of its binding in the text.
pub proof fn law_declaration_has_name(
    bytes: Seq<u8>,
    binding: Binding,
    root: Root,
    scripts: Seq<SvelteScript>,
)
    ensures
        declaration_of(bytes, binding, root, scripts) matches Some(start) ==> is_named_at(
            bytes,
            binding,
            start,
        ),
{
    if let Some(start) = binding.declaration_start {
        lemma_first_where_fits(
            scripts,
            |script: SvelteScript| fits_shifted(bytes, binding, start, script),
        );
    }
    if let Some(script) = root.module {
        lemma_first_where_fits(
            import_locals(script),
            |local: LocalName| imports_binding(bytes, binding, local),
        );
    }
    if let Some(script) = root.instance {
        lemma_first_where_fits(
            import_locals(script),
            |local: LocalName| imports_binding(bytes, binding, local),
        );
    }
}

/// The bindings that a node refers to as a component tag.
pub open spec fn own_references(node: TemplateNode) -> Seq<usize> {
    match node {
        TemplateNode::Component(component) => component.references@,
        _ => Seq::empty(),
    }
}

/// The bindings that the component tags among `nodes` refer to.
pub open spec fn references_among(nodes: Seq<TemplateNode>) -> Seq<usize> {
    nodes.flat_map(|node: TemplateNode| own_references(node))
}

/// The bindings that the component tags of a fragment refer to, at any depth, in
/// source order.
pub open spec fn component_references(fragment: Fragment) -> Seq<usize> {
    references_among(fragment_nodes(fragment))
}

proof fn lemma_references_among_concat(a: Seq<TemplateNode>, b: Seq<TemplateNode>)
    ensures
        references_among(a + b) == references_among(a) + references_among(b),
{
    let f = |node: TemplateNode| own_references(node);
    assert((a + b).map_values(f) =~= a.map_values(f) + b.map_values(f));
    vstd::seq_lib::lemma_flatten_concat(a.map_values(f), b.map_values(f));
}

proof fn lemma_references_among_one(node: TemplateNode)
    ensures
        references_among(seq![node]) == own_references(node),
{
    let f = |node: TemplateNode| own_references(node);
    seq![node].lemma_flat_map_singleton(f);
}

/// Collecting the bindings of a fragment is collecting those of its parts in
/// turn, behind whatever was collected before.
pub proof fn law_references_of_joined_fragments(
    first: Fragment,
    second: Fragment,
    joined: Fragment,
    collected: Seq<usize>,
)
    requires
        joined.nodes@ == first.nodes@ + second.nodes@,
    ensures
        component_references(joined) == component_references(first) + component_references(second),
        collected + component_references(joined) == (collected + component_references(first))
            + component_references(second),
{
    law_nodes_of_joined_lists(first.nodes@, second.nodes@);
    lemma_references_among_concat(nodes_below(first.nodes@), nodes_below(second.nodes@));
    assert(collected + component_references(joined) =~= (collected + component_references(first))
        + component_references(second));
}

/// The store that a `$store` name subscribes to: what stands behind the `$`.
pub fn store_name(name: &str) -> (r: Option<&str>)
    ensures
        match r {
            Some(store) => name@ == seq!['$'] + store@,
            None => name@.len() == 0 || name@[0] != '$',
        },
{
    if name.is_empty() {
        return None;
    }
    if name.get_char(0) != '$' {
        return None;
    }
    let store = name.substring_char(1, name.unicode_len());
    assert(name@ =~= seq!['$'] + store@);
    Some(store)
}

fn find_self_declared_start(source: &str, binding: &Binding) -> (r: Option<u32>)
    ensures
        r == self_declared_start(encode_utf8(source@), *binding),
{
    let ghost declares = |reference: Reference| reference.is_self_declaration;
    let mut index: usize = 0;
    while index < binding.references.len()
        invariant
            index <= binding.references@.len(),
            forall|j: int| 0 <= j < index ==> !declares(#[trigger] binding.references@[j]),
            declares == (|reference: Reference| reference.is_self_declaration),
        decreases binding.references@.len() - index,
    {
        if binding.references[index].is_self_declaration {
            proof {
                lemma_first_where_at(binding.references@, declares, index as int);
            }
            let start: u32 = binding.references[index].start;
            return if is_name_at(source, start, binding.name.as_str()) {
                Some(start)
            } else {
                None
            };
        }
        index = index + 1;
    }
    proof {
        lemma_first_where_none(binding.references@, declares);
    }
    None
}

fn find_recorded_start(source: &str, binding: &Binding, scripts: &Vec<SvelteScript>) -> (r: Option<
    u32,
>)
    ensures
        r == recorded_start(encode_utf8(source@), *binding, scripts@),
{
    let start: u32 = match binding.declaration_start {
        Some(start) => start,
        None => return None,
    };
    if is_name_at(source, start, binding.name.as_str()) {
        return Some(start);
    }
    let ghost bytes = encode_utf8(source@);
    let ghost fits = |script: SvelteScript| fits_shifted(bytes, *binding, start, script);
    let mut index: usize = 0;
    while index < scripts.len()
        invariant
            index <= scripts@.len(),
            bytes == encode_utf8(source@),
            binding.declaration_start == Some(start),
            !is_named_at(bytes, *binding, start),
            fits == (|script: SvelteScript| fits_shifted(bytes, *binding, start, script)),
            forall|j: int| 0 <= j < index ==> !fits(#[trigger] scripts@[j]),
        decreases scripts@.len() - index,
    {
        let body: u32 = scripts[index].body_range.span.start;
        if body <= start && is_name_at(source, start - body, binding.name.as_str()) {
            proof {
                lemma_first_where_at(scripts@, fits, index as int);
            }
            return Some(start - body);
        }
        index = index + 1;
    }
    proof {
        lemma_first_where_none(scripts@, fits);
    }
    None
}

fn find_imported_start(source: &str, binding: &Binding, script: &Script) -> (r: Option<u32>)
    ensures
        r == imported_start(encode_utf8(source@), *binding, *script),
{
    let ghost bytes = encode_utf8(source@);
    let ghost fits = |local: LocalName| imports_binding(bytes, *binding, local);
    let ghost locals = |statement: Statement| statement_locals(statement);
    assert(script.body@.take(0).flat_map(locals) =~= Seq::empty());
    let mut index: usize = 0;
    while index < script.body.len()
        invariant
            index <= script.body@.len(),
            bytes == encode_utf8(source@),
            fits == (|local: LocalName| imports_binding(bytes, *binding, local)),
            locals == (|statement: Statement| statement_locals(statement)),
            first_where(script.body@.take(index as int).flat_map(locals), fits) is None,
        decreases script.body@.len() - index,
    {
        proof {
            script.body@.lemma_flat_map_take_append(locals, index as int);
            lemma_first_where_concat(
                script.body@.take(index as int).flat_map(locals),
                locals(script.body@[index as int]),
                fits,
            );
        }
        match &script.body[index] {
            Statement::ImportDeclaration(specifiers) => {
                match find_imported_in(source, binding, specifiers) {
                    Some(start) => {
                        proof {
                            lemma_flat_map_split(script.body@, locals, index as int);
                            lemma_first_where_concat(
                                script.body@.take(index as int).flat_map(locals),
                                locals(script.body@[index as int]),
                                fits,
                            );
                            lemma_first_where_concat(
                                script.body@.take(index as int).flat_map(locals) + locals(
                                    script.body@[index as int],
                                ),
                                script.body@.skip(index + 1).flat_map(locals),
                                fits,
                            );
                        }
                        return Some(start);
                    },
                    None => {},
                }
            },
            Statement::Other => {},
        }
        index = index + 1;
    }
    assert(script.body@.take(index as int) =~= script.body@);
    None
}

fn find_imported_in(source: &str, binding: &Binding, specifiers: &Vec<ImportSpecifier>) -> (r:
    Option<u32>)
    ensures
        match first_where(
            specifiers@.flat_map(|specifier: ImportSpecifier| specifier_locals(specifier)),
            |local: LocalName| imports_binding(encode_utf8(source@), *binding, local),
        ) {
            Some(LocalName::Identifier { start, .. }) => r == Some(start),
            Some(LocalName::Other) => false,
            None => r is None,
        },
{
    let ghost bytes = encode_utf8(source@);
    let ghost fits = |local: LocalName| imports_binding(bytes, *binding, local);
    let ghost locals = |specifier: ImportSpecifier| specifier_locals(specifier);
    assert(specifiers@.take(0).flat_map(locals) =~= Seq::empty());
    let mut index: usize = 0;
    while index < specifiers.len()
        invariant
            index <= specifiers@.len(),
            bytes == encode_utf8(source@),
            fits == (|local: LocalName| imports_binding(bytes, *binding, local)),
            locals == (|specifier: ImportSpecifier| specifier_locals(specifier)),
            first_where(specifiers@.take(index as int).flat_map(locals), fits) is None,
        decreases specifiers@.len() - index,
    {
        proof {
            specifiers@.lemma_flat_map_take_append(locals, index as int);
            lemma_first_where_concat(
                specifiers@.take(index as int).flat_map(locals),
                locals(specifiers@[index as int]),
                fits,
            );
        }
        if let Some(local) = &specifiers[index].local {
            if let LocalName::Identifier { name, start } = local {
                if same_text(name.as_str(), binding.name.as_str()) && is_name_at(
                    source,
                    *start,
                    binding.name.as_str(),
                ) {
                    proof {
                        assert(fits(*local));
                        lemma_first_where_at(locals(specifiers@[index as int]), fits, 0);
                        lemma_flat_map_split(specifiers@, locals, index as int);
                        lemma_first_where_concat(
                            specifiers@.take(index as int).flat_map(locals) + locals(
                                specifiers@[index as int],
                            ),
                            specifiers@.skip(index + 1).flat_map(locals),
                            fits,
                        );
                    }
                    return Some(*start);
                }
            }
            assert(!fits(*local));
            proof {
                lemma_first_where_none(locals(specifiers@[index as int]), fits);
            }
        }
        index = index + 1;
    }
    assert(specifiers@.take(index as int) =~= specifiers@);
    None
}

/// Where `binding` is declared.
pub fn binding_declaration_start(
    source: &str,
    binding: &Binding,
    root: &Root,
    scripts: &Vec<SvelteScript>,
) -> (r: Option<u32>)
    ensures
        r == declaration_of(encode_utf8(source@), *binding, *root, scripts@),
{
    if let Some(start) = find_self_declared_start(source, binding) {
        return Some(start);
    }
    if let Some(start) = find_recorded_start(source, binding, scripts) {
        return Some(start);
    }
    let script = if binding.scope_index == 0 {
        &root.module
    } else {
        &root.instance
    };
    match script {
        Some(script) => find_imported_start(source, binding, script),
        None => None,
    }
}

/// Appends the bindings that the component tags of `fragment` refer to, at any
/// depth, in source order.
pub fn collect_component_bindings(fragment: &Fragment, bindings: &mut Vec<usize>)
    ensures
        final(bindings)@ == old(bindings)@ + component_references(*fragment),
    decreases *fragment,
{
    let ghost before = bindings@;
    let ghost nodes = fragment.nodes@;
    assert(nodes.take(0) =~= Seq::empty());
    assert(references_among(Seq::empty()) =~= Seq::empty());
    let mut index: usize = 0;
    while index < fragment.nodes.len()
        invariant
            index <= nodes.len(),
            nodes == fragment.nodes@,
            bindings@ == before + references_among(nodes_below(nodes.take(index as int))),
        decreases nodes.len() - index,
    {
        proof {
            assert(decreases_to!(*fragment => fragment.nodes));
            assert(decreases_to!(fragment.nodes => fragment.nodes@));
            assert(decreases_to!(fragment.nodes@ => fragment.nodes@[index as int]));
            assert(nodes.take(index + 1).drop_last() =~= nodes.take(index as int));
            lemma_references_among_concat(
                nodes_below(nodes.take(index as int)),
                node_and_below(nodes[index as int]),
            );
        }
        collect_component_bindings_from_node(&fragment.nodes[index], bindings);
        index = index + 1;
    }
    assert(nodes.take(nodes.len() as int) =~= nodes);
}

fn collect_component_bindings_from_node(node: &TemplateNode, bindings: &mut Vec<usize>)
    ensures
        final(bindings)@ == old(bindings)@ + references_among(node_and_below(*node)),
    decreases *node,
{
    let ghost before = bindings@;
    proof {
        lemma_references_among_one(*node);
        assert(references_among(Seq::empty()) =~= Seq::empty());
        lemma_references_among_concat(seq![*node], node_and_below(*node).drop_first());
        assert(seq![*node] + node_and_below(*node).drop_first() =~= node_and_below(*node));
    }
    match node {
        TemplateNode::Component(component) => {
            assert(node_and_below(*node).drop_first() =~= fragment_nodes(component.fragment));
            let mut index: usize = 0;
            while index < component.references.len()
                invariant
                    index <= component.references@.len(),
                    bindings@ =~= before + component.references@.take(index as int),
                decreases component.references@.len() - index,
            {
                bindings.push(component.references[index]);
                index = index + 1;
            }
            assert(component.references@.take(index as int) =~= component.references@);
            collect_component_bindings(&component.fragment, bindings);
        },
        TemplateNode::IfBlock(block) => {
            proof {
                lemma_references_among_concat(
                    fragment_nodes(block.consequent),
                    optional_nodes(block.alternate),
                );
                assert(node_and_below(*node).drop_first() =~= fragment_nodes(block.consequent)
                    + optional_nodes(block.alternate));
            }
            collect_component_bindings(&block.consequent, bindings);
            if let Some(alternate) = &block.alternate {
                collect_component_bindings(alternate, bindings);
            }
        },
        TemplateNode::EachBlock(block) => {
            proof {
                lemma_references_among_concat(
                    fragment_nodes(block.body),
                    optional_nodes(block.fallback),
                );
                assert(node_and_below(*node).drop_first() =~= fragment_nodes(block.body)
                    + optional_nodes(block.fallback));
            }
            collect_component_bindings(&block.body, bindings);
            if let Some(fallback) = &block.fallback {
                collect_component_bindings(fallback, bindings);
            }
        },
        TemplateNode::AwaitBlock(block) => {
            proof {
                let first = optional_nodes(block.pending) + optional_nodes(block.then_branch);
                lemma_references_among_concat(
                    optional_nodes(block.pending),
                    optional_nodes(block.then_branch),
                );
                lemma_references_among_concat(first, optional_nodes(block.catch_branch));
                assert(node_and_below(*node).drop_first() =~= first + optional_nodes(
                    block.catch_branch,
                ));
            }
            if let Some(fragment) = &block.pending {
                collect_component_bindings(fragment, bindings);
            }
            if let Some(fragment) = &block.then_branch {
                collect_component_bindings(fragment, bindings);
            }
            if let Some(fragment) = &block.catch_branch {
                collect_component_bindings(fragment, bindings);
            }
        },
        TemplateNode::KeyBlock(fragment)
        | TemplateNode::SnippetBlock(fragment)
        | TemplateNode::RegularElement(fragment)
        | TemplateNode::TitleElement(fragment)
        | TemplateNode::SlotElement(fragment)
        | TemplateNode::SvelteBody(fragment)
        | TemplateNode::SvelteDocument(fragment)
        | TemplateNode::SvelteFragment(fragment)
        | TemplateNode::SvelteBoundary(fragment)
        | TemplateNode::SvelteHead(fragment)
        | TemplateNode::SvelteOptions(fragment)
        | TemplateNode::SvelteSelf(fragment)
        | TemplateNode::SvelteWindow(fragment)
        | TemplateNode::SvelteComponent(fragment)
        | TemplateNode::SvelteElement(fragment) => {
            assert(node_and_below(*node).drop_first() =~= fragment_nodes(*fragment));
            collect_component_bindings(fragment, bindings);
        },
        TemplateNode::Text
        | TemplateNode::Comment(_)
        | TemplateNode::ExpressionTag
        | TemplateNode::HtmlTag
        | TemplateNode::ConstTag
        | TemplateNode::DeclarationTag
        | TemplateNode::DebugTag
        | TemplateNode::RenderTag
        | TemplateNode::AttachTag => {
            assert(node_and_below(*node) =~= seq![*node]);
        },
    }
}

/// A component tag has its own references and then those of the tags in it; any
/// other block or element has those of the tags in each of its fragments, in the
/// order in which they are written, whichever of them are there; nothing else has
/// any.
pub proof fn law_references_of_one_node(node: TemplateNode, alone: Fragment)
    requires
        alone.nodes@ == seq![node],
    ensures
        ({
            let all = component_references(alone);
            match node {
                TemplateNode::Component(component) => all == component.references@
                    + component_references(component.fragment),
                TemplateNode::IfBlock(block) => all == component_references(block.consequent) + (
                match block.alternate {
                    Some(alternate) => component_references(alternate),
                    None => Seq::empty(),
                }),
                TemplateNode::EachBlock(block) => all == component_references(block.body) + (
                match block.fallback {
                    Some(fallback) => component_references(fallback),
                    None => Seq::empty(),
                }),
                TemplateNode::AwaitBlock(block) => all == (match block.pending {
                    Some(pending) => component_references(pending),
                    None => Seq::empty(),
                }) + (match block.then_branch {
                    Some(then_branch) => component_references(then_branch),
                    None => Seq::empty(),
                }) + (match block.catch_branch {
                    Some(catch_branch) => component_references(catch_branch),
                    None => Seq::empty(),
                }),
                TemplateNode::KeyBlock(inside)
                | TemplateNode::SnippetBlock(inside)
                | TemplateNode::RegularElement(inside)
                | TemplateNode::TitleElement(inside)
                | TemplateNode::SlotElement(inside)
                | TemplateNode::SvelteBody(inside)
                | TemplateNode::SvelteDocument(inside)
                | TemplateNode::SvelteFragment(inside)
                | TemplateNode::SvelteBoundary(inside)
                | TemplateNode::SvelteHead(inside)
                | TemplateNode::SvelteOptions(inside)
                | TemplateNode::SvelteSelf(inside)
                | TemplateNode::SvelteWindow(inside)
                | TemplateNode::SvelteComponent(inside)
                | TemplateNode::SvelteElement(inside) => all == component_references(inside),
                TemplateNode::Comment(_) => all.len() == 0,
                TemplateNode::Text
                | TemplateNode::ExpressionTag
                | TemplateNode::HtmlTag
                | TemplateNode::ConstTag
                | TemplateNode::DeclarationTag
                | TemplateNode::DebugTag
                | TemplateNode::RenderTag
                | TemplateNode::AttachTag => all.len() == 0,
            }
        }),
{
    law_nodes_of_short_lists(node);
    law_every_fragment_of_a_node_is_below_it(node);
    let below = node_and_below(node).drop_first();
    assert(node_and_below(node) =~= seq![node] + below);
    lemma_references_among_concat(seq![node], below);
    lemma_references_among_one(node);
    assert(references_among(Seq::empty()) =~= Seq::empty());
    assert(own_references(node) + references_among(below) == component_references(alone));
    match node {
        TemplateNode::IfBlock(block) => {
            lemma_references_among_concat(
                fragment_nodes(block.consequent),
                optional_nodes(block.alternate),
            );
        },
        TemplateNode::EachBlock(block) => {
            lemma_references_among_concat(
                fragment_nodes(block.body),
                optional_nodes(block.fallback),
            );
        },
        TemplateNode::AwaitBlock(block) => {
            let first = optional_nodes(block.pending) + optional_nodes(block.then_branch);
            lemma_references_among_concat(
                optional_nodes(block.pending),
                optional_nodes(block.then_branch),
            );
            lemma_references_among_concat(first, optional_nodes(block.catch_branch));
        },
        TemplateNode::Component(_) => {},
        _ => {
            assert(below.len() == 0 ==> below =~= Seq::empty());
            assert(own_references(node) + references_among(below) =~= references_among(below));
        },
    }
}

/// A fragment without nodes refers to no bindings.
pub proof fn law_empty_fragment_has_no_references(fragment: Fragment)
    requires
        fragment.nodes@.len() == 0,
    ensures
        component_references(fragment).len() == 0,
{
    assert(references_among(Seq::empty()) =~= Seq::empty());
}

/// The name behind the declaration is found where its bytes stand.
pub proof fn law_binding_is_named_where_its_name_stands(
    bytes: Seq<u8>,
    binding: Binding,
    offset: u32,
)
    ensures
        is_named_at(bytes, binding, offset) == name_at(
            bytes,
            offset as int,
            encode_utf8(binding.name@),
        ),
{
}

/// An offset is in the body of a script from where the body starts up to where it
/// ends.
pub proof fn law_body_is_half_open(script: SvelteScript, offset: u32)
    ensures
        in_body(script, offset) <==> script.body_range.span.start <= offset && offset
            < script.body_range.span.end,
{
}

/// The first reference that declares the binding is where it is declared, if the
/// name is there, whatever else is known of the binding.
pub proof fn law_first_self_declaration_decides(
    bytes: Seq<u8>,
    binding: Binding,
    root: Root,
    scripts: Seq<SvelteScript>,
    i: int,
)
    requires
        0 <= i < binding.references@.len(),
        binding.references@[i].is_self_declaration,
        forall|j: int| 0 <= j < i ==> !(#[trigger] binding.references@[j]).is_self_declaration,
        name_at(bytes, binding.references@[i].start as int, encode_utf8(binding.name@)),
    ensures
        declaration_of(bytes, binding, root, scripts) == Some(binding.references@[i].start),
{
    lemma_first_where_at(
        binding.references@,
        |reference: Reference| reference.is_self_declaration,
        i,
    );
}

/// Whether no reference settles where the binding is declared: the first that
/// declares it, if there is one, does not have the name.
spec fn lacks_self_declaration(bytes: Seq<u8>, binding: Binding) -> bool {
    forall|i: int|
        0 <= i < binding.references@.len() && (#[trigger] binding.references@[i]).is_self_declaration
            && (forall|j: int|
            0 <= j < i ==> !(#[trigger] binding.references@[j]).is_self_declaration) ==> !name_at(
            bytes,
            binding.references@[i].start as int,
            encode_utf8(binding.name@),
        )
}

/// Whether the recorded offset, less the start of the body of `script`, has the
/// name of the binding.
spec fn records_in(
    bytes: Seq<u8>,
    binding: Binding,
    start: u32,
    script: SvelteScript,
) -> bool {
    &&& start >= script.body_range.span.start
    &&& name_at(bytes, start - script.body_range.span.start, encode_utf8(binding.name@))
}

/// Whether the recorded offset does not have the name, neither as it is nor less
/// the start of any script body.
spec fn lacks_recorded_declaration(
    bytes: Seq<u8>,
    binding: Binding,
    scripts: Seq<SvelteScript>,
) -> bool {
    binding.declaration_start matches Some(start) ==> {
        &&& !name_at(bytes, start as int, encode_utf8(binding.name@))
        &&& forall|k: int|
            0 <= k < scripts.len() ==> !records_in(bytes, binding, start, #[trigger] scripts[k])
    }
}

/// Whether specifier `n` of statement `m` imports the binding and has its name in
/// the text.
spec fn imports_at(
    bytes: Seq<u8>,
    binding: Binding,
    script: Script,
    m: int,
    n: int,
) -> bool {
    &&& 0 <= m < script.body@.len()
    &&& script.body@[m] matches Statement::ImportDeclaration(specifiers)
    &&& 0 <= n < specifiers@.len()
    &&& specifiers@[n].local matches Some(LocalName::Identifier { name, start })
    &&& name@ == binding.name@
    &&& name_at(bytes, start as int, encode_utf8(binding.name@))
}

proof fn lemma_no_self_declared_start(bytes: Seq<u8>, binding: Binding)
    requires
        lacks_self_declaration(bytes, binding),
    ensures
        self_declared_start(bytes, binding) is None,
{
    let declares = |reference: Reference| reference.is_self_declaration;
    law_first_where_is_first(binding.references@, declares);
    if let Some(x) = first_where(binding.references@, declares) {
        let i = choose|i: int|
            0 <= i < binding.references@.len() && #[trigger] binding.references@[i] == x
                && declares(binding.references@[i]) && forall|j: int|
                0 <= j < i ==> !declares(#[trigger] binding.references@[j]);
        assert forall|j: int| 0 <= j < i implies !(#[trigger] binding.references@[j])
            .is_self_declaration by {
            assert(!declares(binding.references@[j]));
        }
        assert(binding.references@[i].is_self_declaration);
    }
}

proof fn lemma_no_recorded_start(bytes: Seq<u8>, binding: Binding, scripts: Seq<SvelteScript>)
    requires
        lacks_recorded_declaration(bytes, binding, scripts),
    ensures
        recorded_start(bytes, binding, scripts) is None,
{
    if let Some(start) = binding.declaration_start {
        lemma_first_where_none(
            scripts,
            |script: SvelteScript| fits_shifted(bytes, binding, start, script),
        );
    }
}

/// Where the first reference that declares the binding, if there is one, does not
/// have the name, the recorded offset is where the binding is declared, if the name is
/// there.
pub proof fn law_recorded_offset_comes_next(
    bytes: Seq<u8>,
    binding: Binding,
    root: Root,
    scripts: Seq<SvelteScript>,
    first: int,
    start: u32,
)
    requires
        0 <= first <= binding.references@.len(),
        forall|j: int| 0 <= j < first ==> !(#[trigger] binding.references@[j]).is_self_declaration,
        first < binding.references@.len() ==> binding.references@[first].is_self_declaration
            && !name_at(
            bytes,
            binding.references@[first].start as int,
            encode_utf8(binding.name@),
        ),
        binding.declaration_start == Some(start),
        name_at(bytes, start as int, encode_utf8(binding.name@)),
    ensures
        declaration_of(bytes, binding, root, scripts) == Some(start),
{
    assert(lacks_self_declaration(bytes, binding)) by {
        assert forall|i: int|
            0 <= i < binding.references@.len() && (
            #[trigger] binding.references@[i]).is_self_declaration && (forall|j: int|
                0 <= j < i ==> !(#[trigger] binding.references@[j]).is_self_declaration)
            implies !name_at(
            bytes,
            binding.references@[i].start as int,
            encode_utf8(binding.name@),
        ) by {
            assert(i >= first);
            if first < i {
                assert(!binding.references@[first].is_self_declaration);
            }
        }
    }
    lemma_no_self_declared_start(bytes, binding);
}

/// Otherwise it is the recorded offset less the start of the first script body for
/// which the name is there.
pub proof fn law_recorded_offset_may_be_shifted(
    bytes: Seq<u8>,
    binding: Binding,
    root: Root,
    scripts: Seq<SvelteScript>,
    first: int,
    start: u32,
    k: int,
)
    requires
        0 <= first <= binding.references@.len(),
        forall|j: int| 0 <= j < first ==> !(#[trigger] binding.references@[j]).is_self_declaration,
        first < binding.references@.len() ==> binding.references@[first].is_self_declaration
            && !name_at(
            bytes,
            binding.references@[first].start as int,
            encode_utf8(binding.name@),
        ),
        binding.declaration_start == Some(start),
        !name_at(bytes, start as int, encode_utf8(binding.name@)),
        0 <= k < scripts.len(),
        scripts[k].body_range.span.start <= start,
        name_at(bytes, start - scripts[k].body_range.span.start, encode_utf8(binding.name@)),
        forall|j: int|
            0 <= j < k && (#[trigger] scripts[j]).body_range.span.start <= start ==> !name_at(
                bytes,
                start - scripts[j].body_range.span.start,
                encode_utf8(binding.name@),
            ),
    ensures
        declaration_of(bytes, binding, root, scripts) == Some(
            (start - scripts[k].body_range.span.start) as u32,
        ),
{
    assert(lacks_self_declaration(bytes, binding)) by {
        assert forall|i: int|
            0 <= i < binding.references@.len() && (
            #[trigger] binding.references@[i]).is_self_declaration && (forall|j: int|
                0 <= j < i ==> !(#[trigger] binding.references@[j]).is_self_declaration)
            implies !name_at(
            bytes,
            binding.references@[i].start as int,
            encode_utf8(binding.name@),
        ) by {
            assert(i >= first);
            if first < i {
                assert(!binding.references@[first].is_self_declaration);
            }
        }
    }
    lemma_no_self_declared_start(bytes, binding);
    lemma_first_where_at(
        scripts,
        |script: SvelteScript| fits_shifted(bytes, binding, start, script),
        k,
    );
}

proof fn lemma_no_import_in_specifiers(
    bytes: Seq<u8>,
    binding: Binding,
    script: Script,
    m: int,
    count: int,
)
    requires
        0 <= m < script.body@.len(),
        script.body@[m] is ImportDeclaration,
        0 <= count <= script.body@[m]->ImportDeclaration_0@.len(),
        forall|q: int| 0 <= q < count ==> !#[trigger] imports_at(bytes, binding, script, m, q),
    ensures
        first_where(
            script.body@[m]->ImportDeclaration_0@.take(count).flat_map(
                |specifier: ImportSpecifier| specifier_locals(specifier),
            ),
            |local: LocalName| imports_binding(bytes, binding, local),
        ) is None,
{
    let fits = |local: LocalName| imports_binding(bytes, binding, local);
    let locals = |specifier: ImportSpecifier| specifier_locals(specifier);
    let specifiers = script.body@[m]->ImportDeclaration_0@.take(count);
    assert forall|q: int| 0 <= q < specifiers.len() implies first_where(
        locals(#[trigger] specifiers[q]),
        fits,
    ) is None by {
        assert(!imports_at(bytes, binding, script, m, q));
        lemma_first_where_none(locals(specifiers[q]), fits);
    }
    lemma_first_where_none_in_flat_map(specifiers, locals, fits);
}

proof fn lemma_no_import_in_statements(
    bytes: Seq<u8>,
    binding: Binding,
    script: Script,
    count: int,
)
    requires
        0 <= count <= script.body@.len(),
        forall|p: int, q: int|
            0 <= p < count ==> !#[trigger] imports_at(bytes, binding, script, p, q),
    ensures
        first_where(
            script.body@.take(count).flat_map(|statement: Statement| statement_locals(statement)),
            |local: LocalName| imports_binding(bytes, binding, local),
        ) is None,
{
    let fits = |local: LocalName| imports_binding(bytes, binding, local);
    let locals = |statement: Statement| statement_locals(statement);
    let statements = script.body@.take(count);
    assert forall|p: int| 0 <= p < statements.len() implies first_where(
        locals(#[trigger] statements[p]),
        fits,
    ) is None by {
        if let Statement::ImportDeclaration(specifiers) = statements[p] {
            lemma_no_import_in_specifiers(
                bytes,
                binding,
                script,
                p,
                specifiers@.len() as int,
            );
            assert(specifiers@.take(specifiers@.len() as int) =~= specifiers@);
        }
    }
    lemma_first_where_none_in_flat_map(statements, locals, fits);
}

/// Otherwise it is where the first import of the binding names it: of the module
/// script for a binding of scope zero, and of the instance script for any other.
pub proof fn law_first_import_comes_last(
    bytes: Seq<u8>,
    binding: Binding,
    root: Root,
    scripts: Seq<SvelteScript>,
    first: int,
    script: Script,
    m: int,
    n: int,
)
    requires
        0 <= first <= binding.references@.len(),
        forall|j: int| 0 <= j < first ==> !(#[trigger] binding.references@[j]).is_self_declaration,
        first < binding.references@.len() ==> binding.references@[first].is_self_declaration
            && !name_at(
            bytes,
            binding.references@[first].start as int,
            encode_utf8(binding.name@),
        ),
        binding.declaration_start is Some ==> !name_at(
            bytes,
            binding.declaration_start->0 as int,
            encode_utf8(binding.name@),
        ),
        binding.declaration_start is Some ==> forall|k: int|
            0 <= k < scripts.len() && (#[trigger] scripts[k]).body_range.span.start
                <= binding.declaration_start->0 ==> !name_at(
                bytes,
                binding.declaration_start->0 - scripts[k].body_range.span.start,
                encode_utf8(binding.name@),
            ),
        binding.scope_index == 0 ==> root.module == Some(script),
        binding.scope_index != 0 ==> root.instance == Some(script),
        0 <= m < script.body@.len(),
        script.body@[m] is ImportDeclaration,
        0 <= n < script.body@[m]->ImportDeclaration_0@.len(),
        script.body@[m]->ImportDeclaration_0@[n].local is Some,
        script.body@[m]->ImportDeclaration_0@[n].local->0 is Identifier,
        script.body@[m]->ImportDeclaration_0@[n].local->0->name@ == binding.name@,
        name_at(
            bytes,
            script.body@[m]->ImportDeclaration_0@[n].local->0->start as int,
            encode_utf8(binding.name@),
        ),
        forall|p: int, q: int|
            #![trigger script.body@[p]->ImportDeclaration_0@[q]]
            (p < m || (p == m && q < n)) && 0 <= p < script.body@.len() && script.body@[p] is ImportDeclaration && 0 <= q
                < script.body@[p]->ImportDeclaration_0@.len()
                && script.body@[p]->ImportDeclaration_0@[q].local is Some
                && script.body@[p]->ImportDeclaration_0@[q].local->0 is Identifier
                && script.body@[p]->ImportDeclaration_0@[q].local->0->name@ == binding.name@ ==> !name_at(
                bytes,
                script.body@[p]->ImportDeclaration_0@[q].local->0->start as int,
                encode_utf8(binding.name@),
            ),
    ensures
        declaration_of(bytes, binding, root, scripts) == Some(
            script.body@[m]->ImportDeclaration_0@[n].local->0->start,
        ),
{
    assert(lacks_self_declaration(bytes, binding)) by {
        assert forall|i: int|
            0 <= i < binding.references@.len() && (
            #[trigger] binding.references@[i]).is_self_declaration && (forall|j: int|
                0 <= j < i ==> !(#[trigger] binding.references@[j]).is_self_declaration)
            implies !name_at(
            bytes,
            binding.references@[i].start as int,
            encode_utf8(binding.name@),
        ) by {
            assert(i >= first);
            if first < i {
                assert(!binding.references@[first].is_self_declaration);
            }
        }
    }
    assert(lacks_recorded_declaration(bytes, binding, scripts));
    assert(imports_at(bytes, binding, script, m, n));
    assert forall|p: int, q: int| p < m || (p == m && q < n) implies !#[trigger] imports_at(
        bytes,
        binding,
        script,
        p,
        q,
    ) by {
        if imports_at(bytes, binding, script, p, q) {
            let local = script.body@[p]->ImportDeclaration_0@[q].local->0;
            assert(local->name@ == binding.name@);
        }
    }
    lemma_no_self_declared_start(bytes, binding);
    lemma_no_recorded_start(bytes, binding, scripts);
    let fits = |local: LocalName| imports_binding(bytes, binding, local);
    let locals = |statement: Statement| statement_locals(statement);
    let inner = |specifier: ImportSpecifier| specifier_locals(specifier);
    let specifiers = script.body@[m]->ImportDeclaration_0@;
    let local = specifiers[n].local->0;
    lemma_no_import_in_specifiers(bytes, binding, script, m, n);
    lemma_flat_map_split(specifiers, inner, n);
    lemma_first_where_at(inner(specifiers[n]), fits, 0);
    lemma_first_where_concat(specifiers.take(n).flat_map(inner), inner(specifiers[n]), fits);
    lemma_first_where_concat(
        specifiers.take(n).flat_map(inner) + inner(specifiers[n]),
        specifiers.skip(n + 1).flat_map(inner),
        fits,
    );
    assert(first_where(locals(script.body@[m]), fits) == Some(local));
    lemma_no_import_in_statements(bytes, binding, script, m);
    lemma_flat_map_split(script.body@, locals, m);
    lemma_first_where_concat(script.body@.take(m).flat_map(locals), locals(script.body@[m]), fits);
    lemma_first_where_concat(
        script.body@.take(m).flat_map(locals) + locals(script.body@[m]),
        script.body@.skip(m + 1).flat_map(locals),
        fits,
    );
}

/// Where none of these has the name, the binding has no declaration.
pub proof fn law_no_declaration_without_name(
    bytes: Seq<u8>,
    binding: Binding,
    root: Root,
    scripts: Seq<SvelteScript>,
    first: int,
)
    requires
        0 <= first <= binding.references@.len(),
        forall|j: int| 0 <= j < first ==> !(#[trigger] binding.references@[j]).is_self_declaration,
        first < binding.references@.len() ==> binding.references@[first].is_self_declaration
            && !name_at(
            bytes,
            binding.references@[first].start as int,
            encode_utf8(binding.name@),
        ),
        binding.declaration_start is Some ==> !name_at(
            bytes,
            binding.declaration_start->0 as int,
            encode_utf8(binding.name@),
        ),
        binding.declaration_start is Some ==> forall|k: int|
            0 <= k < scripts.len() && (#[trigger] scripts[k]).body_range.span.start
                <= binding.declaration_start->0 ==> !name_at(
                bytes,
                binding.declaration_start->0 - scripts[k].body_range.span.start,
                encode_utf8(binding.name@),
            ),
        binding.scope_index == 0 && root.module is Some ==> forall|p: int, q: int|
                #![trigger root.module->0.body@[p]->ImportDeclaration_0@[q]]
                0 <= p < root.module->0.body@.len() && root.module->0.body@[p] is ImportDeclaration && 0 <= q
                    < root.module->0.body@[p]->ImportDeclaration_0@.len()
                    && root.module->0.body@[p]->ImportDeclaration_0@[q].local is Some
                    && root.module->0.body@[p]->ImportDeclaration_0@[q].local->0 is Identifier
                    && root.module->0.body@[p]->ImportDeclaration_0@[q].local->0->name@ == binding.name@ ==> !name_at(
                    bytes,
                    root.module->0.body@[p]->ImportDeclaration_0@[q].local->0->start as int,
                    encode_utf8(binding.name@),
                ),
        binding.scope_index != 0 && root.instance is Some ==> forall|p: int, q: int|
                #![trigger root.instance->0.body@[p]->ImportDeclaration_0@[q]]
                0 <= p < root.instance->0.body@.len() && root.instance->0.body@[p] is ImportDeclaration && 0 <= q
                    < root.instance->0.body@[p]->ImportDeclaration_0@.len()
                    && root.instance->0.body@[p]->ImportDeclaration_0@[q].local is Some
                    && root.instance->0.body@[p]->ImportDeclaration_0@[q].local->0 is Identifier
                    && root.instance->0.body@[p]->ImportDeclaration_0@[q].local->0->name@ == binding.name@ ==> !name_at(
                    bytes,
                    root.instance->0.body@[p]->ImportDeclaration_0@[q].local->0->start as int,
                    encode_utf8(binding.name@),
                ),
    ensures
        declaration_of(bytes, binding, root, scripts) is None,
{
    assert(lacks_self_declaration(bytes, binding)) by {
        assert forall|i: int|
            0 <= i < binding.references@.len() && (
            #[trigger] binding.references@[i]).is_self_declaration && (forall|j: int|
                0 <= j < i ==> !(#[trigger] binding.references@[j]).is_self_declaration)
            implies !name_at(
            bytes,
            binding.references@[i].start as int,
            encode_utf8(binding.name@),
        ) by {
            assert(i >= first);
            if first < i {
                assert(!binding.references@[first].is_self_declaration);
            }
        }
    }
    assert(lacks_recorded_declaration(bytes, binding, scripts));
    lemma_no_self_declared_start(bytes, binding);
    lemma_no_recorded_start(bytes, binding, scripts);
    let script = if binding.scope_index == 0 {
        root.module
    } else {
        root.instance
    };
    if let Some(script) = script {
        assert forall|p: int, q: int|  !#[trigger] imports_at(
            bytes,
            binding,
            script,
            p,
            q,
        ) by {
            if imports_at(bytes, binding, script, p, q) {
                let local = script.body@[p]->ImportDeclaration_0@[q].local->0;
                assert(local->name@ == binding.name@);
            }
        }
        lemma_no_import_in_statements(bytes, binding, script, script.body@.len() as int);
        assert(script.body@.take(script.body@.len() as int) =~= script.body@);
    }
}

} // verus!
