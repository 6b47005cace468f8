use oxc_svelte_backend::ast::{
    Component, Fragment, IfBlock, ImportSpecifier, LocalName, Root, Script, ScriptContext,
    Statement, TemplateNode,
};
use oxc_svelte_backend::binding::{
    binding_declaration_start, collect_component_bindings, store_name, Binding, BindingKind,
    Reference,
};
use oxc_svelte_backend::script::convert_script;
use oxc_svelte_backend::semantic::{build_semantic_summary, ComponentAnalysis};
use oxc_svelte_backend::{Span, SvelteScript, SvelteScriptKind};

const SOURCE: &str = "<script>let a = b; let b;</script>{a}";

fn fragment(nodes: Vec<TemplateNode>) -> Fragment {
    Fragment { nodes }
}

fn tag(references: Vec<usize>, nodes: Vec<TemplateNode>) -> TemplateNode {
    TemplateNode::Component(Component { references, fragment: fragment(nodes) })
}

fn root(nodes: Vec<TemplateNode>) -> Root {
    Root { fragment: fragment(nodes), comments: vec![], instance: None, module: None }
}

fn script(body: Vec<Statement>, context: ScriptContext) -> Script {
    Script { start: 0, end: 34, content_offset: 8, context, is_typescript: false, body }
}

fn scripts() -> Vec<SvelteScript> {
    let instance = script(vec![], ScriptContext::Default);
    vec![convert_script(SOURCE, SvelteScriptKind::Instance, &instance)]
}

fn import(names: &[(&str, u32)]) -> Statement {
    let specifiers = names.iter().map(|(name, start)| ImportSpecifier {
        local: Some(LocalName::Identifier { name: name.to_string(), start: *start }),
    });
    Statement::ImportDeclaration(specifiers.collect())
}

fn reference(start: u32, is_template_reference: bool, is_self_declaration: bool) -> Reference {
    Reference { start, end: start + 1, is_template_reference, is_self_declaration }
}

fn binding(name: &str, declaration_start: Option<u32>, references: Vec<Reference>) -> Binding {
    Binding {
        name: name.to_string(),
        kind: BindingKind::Other,
        references,
        declaration_start,
        scope_index: 1,
        is_updated: false,
        store_target: None,
    }
}

fn analysis(bindings: Vec<Binding>) -> ComponentAnalysis {
    ComponentAnalysis {
        bindings,
        runes: false,
        uses_props: false,
        uses_rest_props: false,
        uses_slots: false,
    }
}

fn used(bindings: Vec<Binding>, root: &Root) -> Vec<u32> {
    build_semantic_summary(SOURCE, &analysis(bindings), root, &scripts()).used_bindings
}

#[test]
fn the_script_of_these_tests_has_the_body_they_expect() {
    assert_eq!(scripts()[0].body_range.span, Span::new(8, 25));
}

#[test]
fn template_uses_count() {
    let bindings = vec![binding("a", Some(12), vec![reference(35, true, false)])];
    assert_eq!(used(bindings, &root(vec![])), [12]);
}

#[test]
fn uses_in_the_declaring_script_do_not_count() {
    let bindings = vec![binding("b", Some(23), vec![reference(16, false, false)])];
    assert!(used(bindings, &root(vec![])).is_empty());
}

#[test]
fn uses_outside_the_declaring_script_count() {
    let bindings = vec![binding("a", Some(12), vec![reference(35, false, false)])];
    assert_eq!(used(bindings, &root(vec![])), [12]);
    let at_the_end = vec![binding("a", Some(12), vec![reference(25, false, false)])];
    assert_eq!(used(at_the_end, &root(vec![])), [12]);
    let at_the_start = vec![binding("a", Some(12), vec![reference(8, false, false)])];
    assert!(used(at_the_start, &root(vec![])).is_empty());
}

#[test]
fn declarations_outside_scripts_count_only_in_the_template() {
    let quiet = vec![binding("a", Some(35), vec![reference(12, false, false)])];
    assert!(used(quiet, &root(vec![])).is_empty());
    let seen = vec![binding("a", Some(35), vec![reference(12, true, false)])];
    assert_eq!(used(seen, &root(vec![])), [35]);
}

#[test]
fn updated_bindable_props_count() {
    let mut prop = binding("a", Some(12), vec![]);
    prop.kind = BindingKind::BindableProp;
    prop.is_updated = true;
    assert_eq!(used(vec![prop], &root(vec![])), [12]);

    let mut unchanged = binding("a", Some(12), vec![]);
    unchanged.kind = BindingKind::BindableProp;
    assert!(used(vec![unchanged], &root(vec![])).is_empty());

    let mut other = binding("a", Some(12), vec![]);
    other.is_updated = true;
    assert!(used(vec![other], &root(vec![])).is_empty());
}

fn subscription(name: &str, references: Vec<Reference>, target: Option<usize>) -> Binding {
    let mut subscription = binding(name, None, references);
    subscription.kind = BindingKind::StoreSub;
    subscription.store_target = target;
    subscription
}

#[test]
fn used_subscriptions_count_for_their_store() {
    let store = || binding("b", Some(23), vec![]);
    let in_script = || vec![reference(16, false, false)];
    let bindings = vec![store(), subscription("$b", in_script(), Some(0))];
    assert_eq!(used(bindings, &root(vec![])), [23]);

    let unused = vec![store(), subscription("$b", vec![], Some(0))];
    assert!(used(unused, &root(vec![])).is_empty());

    let unresolved = vec![store(), subscription("$b", in_script(), None)];
    assert!(used(unresolved, &root(vec![])).is_empty());

    let unmarked = vec![store(), subscription("b", in_script(), Some(0))];
    assert!(used(unmarked, &root(vec![])).is_empty());
}

#[test]
fn store_names_follow_a_dollar_sign() {
    assert_eq!(store_name("$count"), Some("count"));
    assert_eq!(store_name("$$props"), Some("$props"));
    assert_eq!(store_name("$"), Some(""));
    assert_eq!(store_name("count"), None);
    assert_eq!(store_name(""), None);
    assert_eq!(store_name("\u{e9}$"), None);
}

#[test]
fn component_tags_count_for_their_bindings() {
    let nodes = vec![TemplateNode::IfBlock(IfBlock {
        consequent: fragment(vec![tag(vec![1], vec![tag(vec![7], vec![])])]),
        alternate: None,
    })];
    let bindings = vec![binding("a", Some(12), vec![]), binding("b", Some(23), vec![])];
    assert_eq!(used(bindings, &root(nodes)), [23]);
}

#[test]
fn component_references_come_in_source_order() {
    let component = root(vec![
        tag(vec![4, 2], vec![tag(vec![9], vec![])]),
        TemplateNode::SlotElement(fragment(vec![tag(vec![2], vec![])])),
        TemplateNode::Text,
    ]);
    let mut references = vec![0];
    collect_component_bindings(&component.fragment, &mut references);
    assert_eq!(references, [0, 4, 2, 9, 2]);
}

#[test]
fn joined_fragments_have_the_references_of_their_parts_in_turn() {
    let first = || vec![tag(vec![3], vec![tag(vec![1], vec![])])];
    let second = || vec![TemplateNode::Text, tag(vec![2, 3], vec![])];
    let mut in_turn = vec![];
    collect_component_bindings(&fragment(first()), &mut in_turn);
    collect_component_bindings(&fragment(second()), &mut in_turn);
    let mut joined = vec![];
    let nodes = first().into_iter().chain(second()).collect();
    collect_component_bindings(&fragment(nodes), &mut joined);
    assert_eq!(joined, in_turn);
    assert_eq!(joined, [3, 1, 2, 3]);
}

#[test]
fn used_bindings_are_ascending_and_unique() {
    let bindings = vec![
        binding("b", Some(23), vec![reference(35, true, false)]),
        binding("a", Some(12), vec![reference(35, true, false), reference(36, true, false)]),
        binding("b", Some(23), vec![reference(36, true, false)]),
    ];
    assert_eq!(used(bindings, &root(vec![tag(vec![0, 1], vec![])])), [12, 23]);
}

#[test]
fn resolved_references_are_ascending_and_unique() {
    let bindings = vec![
        binding("nowhere", None, vec![reference(35, true, false), reference(16, false, false)]),
        binding("a", Some(12), vec![reference(35, true, false)]),
    ];
    let summary =
        build_semantic_summary(SOURCE, &analysis(bindings), &root(vec![]), &scripts());
    assert_eq!(summary.resolved_references, [Span::new(16, 17), Span::new(35, 36)]);
    assert_eq!(summary.used_bindings, [12]);
}

#[test]
fn runes_are_implicit_globals() {
    let mut with_runes = analysis(vec![]);
    with_runes.runes = true;
    with_runes.uses_props = true;
    let summary = build_semantic_summary("", &with_runes, &root(vec![]), &vec![]);
    assert_eq!(
        summary.implicit_globals,
        ["$bindable", "$derived", "$effect", "$host", "$inspect", "$props", "$state"]
    );
}

#[test]
fn legacy_globals_are_implicit_where_used() {
    let globals = |uses_props, uses_rest_props, uses_slots| {
        let legacy = ComponentAnalysis { uses_props, uses_rest_props, uses_slots, ..analysis(vec![]) };
        build_semantic_summary("", &legacy, &root(vec![]), &vec![]).implicit_globals
    };
    assert_eq!(globals(true, true, true), ["$$props", "$$restProps", "$$slots"]);
    assert_eq!(globals(false, true, false), ["$$restProps"]);
    assert_eq!(globals(true, false, true), ["$$props", "$$slots"]);
    assert!(globals(false, false, false).is_empty());
}

fn declared(binding: &Binding, root: &Root) -> Option<u32> {
    binding_declaration_start(SOURCE, binding, root, &scripts())
}

#[test]
fn self_declaration_comes_first() {
    let both = binding("a", Some(35), vec![reference(16, false, false), reference(12, false, true)]);
    assert_eq!(declared(&both, &root(vec![])), Some(12));
}

#[test]
fn only_the_first_self_declaration_is_tried() {
    let misplaced = vec![reference(13, false, true), reference(12, false, true)];
    assert_eq!(declared(&binding("a", None, misplaced.clone()), &root(vec![])), None);
    assert_eq!(declared(&binding("a", Some(35), misplaced), &root(vec![])), Some(35));
}

#[test]
fn recorded_declaration_may_count_from_a_script_body() {
    assert_eq!(declared(&binding("b", Some(23), vec![]), &root(vec![])), Some(23));
    assert_eq!(declared(&binding("a", Some(20), vec![]), &root(vec![])), Some(12));
    assert_eq!(declared(&binding("a", Some(7), vec![]), &root(vec![])), None);
    assert_eq!(declared(&binding("a", None, vec![]), &root(vec![])), None);
}

#[test]
fn imports_declare_bindings_of_their_script() {
    let mut component = root(vec![]);
    component.module =
        Some(script(vec![Statement::Other, import(&[("b", 16)])], ScriptContext::Module));
    component.instance = Some(script(
        vec![
            Statement::ImportDeclaration(vec![
                ImportSpecifier { local: None },
                ImportSpecifier { local: Some(LocalName::Other) },
            ]),
            import(&[("a", 0), ("b", 12), ("b", 23), ("a", 12)]),
        ],
        ScriptContext::Default,
    ));
    assert_eq!(declared(&binding("b", None, vec![]), &component), Some(23));
    assert_eq!(declared(&binding("a", None, vec![]), &component), Some(12));
    assert_eq!(declared(&binding("c", None, vec![]), &component), None);
    let mut of_module = binding("b", None, vec![]);
    of_module.scope_index = 0;
    assert_eq!(declared(&of_module, &component), Some(16));
}
