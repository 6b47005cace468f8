use oxc_svelte_backend::ast::{
    Comment, Component, Fragment, ImportSpecifier, JsComment, JsCommentKind, LocalName, Root,
    Script, ScriptContext, Statement, TemplateNode,
};
use oxc_svelte_backend::binding::{Binding, BindingKind, Reference};
use oxc_svelte_backend::compiler::{AnalyzedComponent, CompilerRun};
use oxc_svelte_backend::diagnostic::{AnalysisError, CompileWarning, ParseError, ParseErrorKind};
use oxc_svelte_backend::semantic::ComponentAnalysis;
use oxc_svelte_backend::{
    parse_svelte, parse_svelte_for_lint, parse_svelte_summary, parse_svelte_syntax, Span,
    SvelteCommentKind, SvelteScriptKind,
};

fn offset_of(source: &str, text: &str) -> u32 {
    u32::try_from(source.find(text).unwrap()).unwrap()
}

fn last_offset_of(source: &str, text: &str) -> u32 {
    u32::try_from(source.rfind(text).unwrap()).unwrap()
}

fn source_end(source: &str) -> u32 {
    u32::try_from(source.len()).unwrap()
}

fn text_of(source: &str, span: Span) -> &str {
    &source[span.start as usize..span.end as usize]
}

fn fragment(nodes: Vec<TemplateNode>) -> Fragment {
    Fragment { nodes }
}

fn element(nodes: Vec<TemplateNode>) -> TemplateNode {
    TemplateNode::RegularElement(fragment(nodes))
}

fn root(nodes: Vec<TemplateNode>) -> Root {
    Root { fragment: fragment(nodes), comments: vec![], instance: None, module: None }
}

/// The script block whose opening tag is the first `tag` of the source.
fn script(source: &str, tag: &str, context: ScriptContext) -> Script {
    let start = source.find(tag).unwrap();
    let end = start + source[start..].find("</script>").unwrap() + "</script>".len();
    Script {
        start: u32::try_from(start).unwrap(),
        end: u32::try_from(end).unwrap(),
        content_offset: u32::try_from(start + tag.len()).unwrap(),
        context,
        is_typescript: tag.contains("lang=\"ts\""),
        body: vec![],
    }
}

fn import(source: &str, name: &str, place: &str) -> Statement {
    Statement::ImportDeclaration(vec![ImportSpecifier {
        local: Some(LocalName::Identifier {
            name: name.to_string(),
            start: offset_of(source, place),
        }),
    }])
}

fn in_template(start: u32, name: &str) -> Reference {
    Reference {
        start,
        end: start + source_end(name),
        is_template_reference: true,
        is_self_declaration: false,
    }
}

fn in_script(start: u32, name: &str) -> Reference {
    Reference { is_template_reference: false, ..in_template(start, name) }
}

/// A binding of the instance script, recorded at `start`.
fn binding(name: &str, start: Option<u32>, references: Vec<Reference>) -> Binding {
    Binding {
        name: name.to_string(),
        kind: BindingKind::Other,
        references,
        declaration_start: start,
        scope_index: 1,
        is_updated: false,
        store_target: None,
    }
}

fn analysis(bindings: Vec<Binding>) -> ComponentAnalysis {
    ComponentAnalysis {
        bindings,
        runes: true,
        uses_props: false,
        uses_rest_props: false,
        uses_slots: false,
    }
}

fn parsed(root: Root) -> CompilerRun {
    CompilerRun::Unstarted.record_parse(Ok(root))
}

fn analyzed(root: Root, noted: Root, analysis: ComponentAnalysis) -> CompilerRun {
    parsed(root).record_analysis(Ok(AnalyzedComponent { root: noted, analysis }))
}

fn transformed(root: Root, noted: Root, warnings: Vec<CompileWarning>) -> CompilerRun {
    analyzed(root, noted, analysis(vec![])).record_transform(Ok(warnings))
}

#[test]
fn parses_svelte_component() {
    let source = r"<script>let count=1;</script>
<button>{count}</button>";
    let component = || {
        let mut component =
            root(vec![TemplateNode::Text, element(vec![TemplateNode::ExpressionTag])]);
        component.instance = Some(script(source, "<script>", ScriptContext::Default));
        component
    };
    let run = transformed(component(), component(), vec![]);

    let summary = parse_svelte_summary(source, &run).expect("Svelte source should parse");

    assert!(summary.has_instance_script);
    assert!(!summary.has_module_script);
    assert!(summary.top_level_node_count > 0);
}

#[test]
fn parse_payload_includes_comments_and_script_ranges() {
    let source = r#"<script context="module">
// module comment
export const answer=42;
</script>
<!-- template comment -->
<script lang="ts">
/* instance comment */
let count:number=1;
</script>
<button>{count}</button>"#;
    let component = || {
        let html = offset_of(source, "<!--");
        let line = offset_of(source, "// module comment");
        let block = offset_of(source, "/* instance comment */");
        Root {
            fragment: fragment(vec![
                TemplateNode::Text,
                TemplateNode::Comment(Comment {
                    start: html,
                    end: html + source_end("<!-- template comment -->"),
                    data: " template comment ".to_string(),
                }),
                TemplateNode::Text,
                element(vec![TemplateNode::ExpressionTag]),
            ]),
            comments: vec![
                JsComment {
                    kind: JsCommentKind::Line,
                    start: line,
                    end: line + source_end("// module comment"),
                    value: " module comment".to_string(),
                },
                JsComment {
                    kind: JsCommentKind::Block,
                    start: block,
                    end: block + source_end("/* instance comment */"),
                    value: " instance comment ".to_string(),
                },
            ],
            instance: Some(script(source, "<script lang=\"ts\">", ScriptContext::Default)),
            module: Some(script(source, "<script context=\"module\">", ScriptContext::Module)),
        }
    };
    let run = transformed(component(), component(), vec![]);

    let parsed = parse_svelte(source, &run).expect("Svelte source should parse");

    assert_eq!(parsed.scripts.len(), 2);
    assert_eq!(parsed.scripts[0].kind, SvelteScriptKind::Module);
    assert_eq!(parsed.scripts[1].kind, SvelteScriptKind::Instance);
    assert!(parsed.scripts[1].is_typescript);
    assert_eq!(
        text_of(source, parsed.scripts[1].body_range.span),
        "\n/* instance comment */\nlet count:number=1;\n"
    );
    assert!(parsed.comments.iter().any(|comment| {
        comment.kind == SvelteCommentKind::Html && comment.text.trim() == "template comment"
    }));
    assert!(parsed.comments.iter().any(|comment| {
        comment.kind == SvelteCommentKind::JsLine && comment.text.trim() == "module comment"
    }));
    assert!(parsed.comments.iter().any(|comment| {
        comment.kind == SvelteCommentKind::JsBlock && comment.text.trim() == "instance comment"
    }));
}

#[test]
fn lint_payload_includes_cross_section_semantics() {
    let source = r"<script module>
const from_module = 1;
</script>
<script>
import Widget from './Widget.svelte';
import { writable } from 'svelte/store';
const count = writable(0);
const from_instance = from_module;
let state = $state(0);
</script>
<Widget>{from_instance} {$count} {state}</Widget>";
    let component = |references: Vec<usize>| {
        let mut instance = script(source, "<script>", ScriptContext::Default);
        instance.body = vec![
            import(source, "Widget", "Widget from"),
            import(source, "writable", "writable }"),
            Statement::Other,
            Statement::Other,
            Statement::Other,
        ];
        let inside = vec![
            TemplateNode::ExpressionTag,
            TemplateNode::Text,
            TemplateNode::ExpressionTag,
            TemplateNode::Text,
            TemplateNode::ExpressionTag,
        ];
        let mut component = root(vec![
            TemplateNode::Text,
            TemplateNode::Text,
            TemplateNode::Component(Component { references, fragment: fragment(inside) }),
        ]);
        component.instance = Some(instance);
        component.module = Some(script(source, "<script module>", ScriptContext::Module));
        component
    };
    let module_reference = last_offset_of(source, "from_module");
    let mut from_module = binding(
        "from_module",
        Some(offset_of(source, "from_module =")),
        vec![in_script(module_reference, "from_module")],
    );
    from_module.scope_index = 0;
    let mut subscription = binding(
        "$count",
        None,
        vec![in_template(last_offset_of(source, "$count"), "$count")],
    );
    subscription.kind = BindingKind::StoreSub;
    subscription.store_target = Some(3);
    let bindings = vec![
        from_module,
        binding("Widget", None, vec![]),
        binding("writable", None, vec![in_script(offset_of(source, "writable(0)"), "writable")]),
        binding("count", Some(offset_of(source, "count =")), vec![]),
        binding(
            "from_instance",
            Some(offset_of(source, "from_instance =")),
            vec![in_template(offset_of(source, "from_instance}"), "from_instance")],
        ),
        binding(
            "state",
            Some(offset_of(source, "state =")),
            vec![in_template(offset_of(source, "state}"), "state")],
        ),
        subscription,
    ];
    let run = analyzed(component(vec![]), component(vec![1]), analysis(bindings));

    let (_, semantic) = parse_svelte_for_lint(source, &run).expect("Svelte source should parse");
    let semantic = semantic.expect("Svelte source should analyze");

    for declaration in ["from_module =", "Widget from", "count =", "from_instance =", "state ="] {
        let start = u32::try_from(source.find(declaration).unwrap()).unwrap();
        assert!(
            semantic.used_bindings.contains(&start),
            "expected {declaration} to be used outside its isolated script scope"
        );
    }
    assert!(!semantic.used_bindings.contains(&offset_of(source, "writable }")));
    let module_reference = u32::try_from(source.rfind("from_module").unwrap()).unwrap();
    assert!(semantic.resolved_references.iter().any(|span| span.start == module_reference));
    assert!(semantic.implicit_globals.iter().any(|name| name == "$state"));
}

#[test]
fn lint_payload_marks_event_handler_bindings_used() {
    let source = r"<button onclick={handle_click}>Click</button>
<script>
function handle_click() {}
</script>";
    let component = || {
        let mut component = root(vec![element(vec![TemplateNode::Text]), TemplateNode::Text]);
        component.instance = Some(script(source, "<script>", ScriptContext::Default));
        component
    };
    let declaration = u32::try_from(source.rfind("handle_click").unwrap()).unwrap();
    let bindings = vec![binding(
        "handle_click",
        Some(declaration),
        vec![in_template(offset_of(source, "handle_click}"), "handle_click")],
    )];
    let run = analyzed(component(), component(), analysis(bindings));

    let (_, semantic) = parse_svelte_for_lint(source, &run).expect("Svelte source should parse");
    let semantic = semantic.expect("Svelte source should analyze");

    assert!(semantic.used_bindings.contains(&declaration));
}

#[test]
fn lint_payload_marks_directives_spreads_and_bindables_used() {
    let source = r"<div use:action transition:slide {...rest}></div>
<script>
import { slide } from 'svelte/transition';
function action() {}
let { value = $bindable(), ...rest } = $props();
value = 1;
</script>";
    let component = || {
        let mut instance = script(source, "<script>", ScriptContext::Default);
        instance.body = vec![
            import(source, "slide", "slide }"),
            Statement::Other,
            Statement::Other,
            Statement::Other,
        ];
        let mut component = root(vec![element(vec![]), TemplateNode::Text]);
        component.instance = Some(instance);
        component
    };
    let mut value = binding(
        "value",
        Some(offset_of(source, "value = $bindable")),
        vec![in_script(offset_of(source, "value = 1"), "value")],
    );
    value.kind = BindingKind::BindableProp;
    value.is_updated = true;
    let bindings = vec![
        binding("slide", None, vec![in_template(offset_of(source, "slide {...rest"), "slide")]),
        binding(
            "action",
            Some(offset_of(source, "action()")),
            vec![in_template(offset_of(source, "action transition"), "action")],
        ),
        value,
        binding(
            "rest",
            Some(offset_of(source, "rest } = $props")),
            vec![in_template(offset_of(source, "rest}></div>"), "rest")],
        ),
    ];
    let run = analyzed(component(), component(), analysis(bindings));

    let (_, semantic) = parse_svelte_for_lint(source, &run).expect("Svelte source should parse");
    let semantic = semantic.expect("Svelte source should analyze");

    for declaration in ["slide }", "action()", "value = $bindable", "rest } = $props"] {
        let start = u32::try_from(source.rfind(declaration).unwrap()).unwrap();
        assert!(
            semantic.used_bindings.contains(&start),
            "expected {declaration} to be semantically used"
        );
    }
    for reference in ["action transition", "slide {...rest", "rest}></div>"] {
        let start = u32::try_from(source.find(reference).unwrap()).unwrap();
        assert!(
            semantic.resolved_references.iter().any(|span| span.start == start),
            "expected {reference} to have its source reference span"
        );
    }
}

#[test]
fn parse_payload_includes_analysis_warnings() {
    let source = r#"<a href="javascript:void(0)">unsafe</a>"#;
    let component = || root(vec![element(vec![TemplateNode::Text])]);
    let warnings = vec![CompileWarning {
        code: "a11y_invalid_attribute".to_string(),
        message: "'javascript:void(0)' is not a valid href attribute".to_string(),
        start: Some(offset_of(source, "href")),
        end: Some(offset_of(source, ">unsafe")),
    }];
    let run = transformed(component(), component(), warnings);

    let parsed = parse_svelte(source, &run).expect("Svelte source should analyze");
    let warning = parsed
        .warnings
        .iter()
        .find(|warning| warning.code == "a11y_invalid_attribute")
        .expect("rsvelte should report the unsafe href");

    assert!(warning.range.span.end <= u32::try_from(source.len()).unwrap());
}

#[test]
fn analysis_errors_include_svelte_code_and_stable_range() {
    let source = r#"<svelte:component foo="bar"/>"#;
    let component = root(vec![TemplateNode::SvelteComponent(fragment(vec![]))]);
    let run = parsed(component).record_analysis(Err(AnalysisError::ValidationWithCode {
        code: "svelte_component_missing_this".to_string(),
        message: "`<svelte:component>` must have a 'this' attribute".to_string(),
    }));

    let error = parse_svelte(source, &run).expect_err("Svelte analysis should fail");

    assert_eq!(error.code, "svelte_component_missing_this");
    assert_eq!(error.range.span, Span::new(0, u32::try_from(source.len()).unwrap()));
}

#[test]
fn syntax_parse_does_not_emit_analysis_diagnostics() {
    let source = r#"<svelte:component foo="bar"/>"#;
    let run = parsed(root(vec![TemplateNode::SvelteComponent(fragment(vec![]))]));

    let parsed = parse_svelte_syntax(source, &run).expect("Svelte syntax should parse");

    assert!(parsed.warnings.is_empty());
}

#[test]
fn parse_error_includes_code_and_range() {
    let source = r#"<script context="not-module"></script>"#;
    let run = CompilerRun::Unstarted.record_parse(Err(ParseError {
        kind: ParseErrorKind::SvelteError { code: "script_invalid_context".to_string() },
        start: source.find("context").unwrap(),
        end: source.find("></script>").unwrap(),
        message: "If the context attribute is supplied, its value must be \"module\"".to_string(),
    }));

    let error = parse_svelte(source, &run).expect_err("Svelte source should fail to parse");

    assert_eq!(error.code, "script_invalid_context");
    assert!(error.range.span.start <= error.range.span.end);
    assert_eq!(error.range.start.line, 1);
}
