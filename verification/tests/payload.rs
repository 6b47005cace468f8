use oxc_svelte_backend::ast::{
    AwaitBlock, Comment, Component, EachBlock, Fragment, IfBlock, JsComment, JsCommentKind, Root,
    Script, ScriptContext, TemplateNode,
};
use oxc_svelte_backend::comment::{collect_html_comments, convert_js_comment};
use oxc_svelte_backend::payload::build_parse_result;
use oxc_svelte_backend::script::{convert_script, find_script_body_end};
use oxc_svelte_backend::{Span, SvelteCommentKind, SvelteParseResult, SvelteScriptKind};

fn fragment(nodes: Vec<TemplateNode>) -> Fragment {
    Fragment { nodes }
}

fn comment(start: u32, data: &str) -> TemplateNode {
    TemplateNode::Comment(Comment { start, end: start + 1, data: data.to_string() })
}

fn holding(start: u32, data: &str) -> Fragment {
    fragment(vec![TemplateNode::Text, comment(start, data)])
}

fn root(nodes: Vec<TemplateNode>) -> Root {
    Root { fragment: fragment(nodes), comments: vec![], instance: None, module: None }
}

fn script(start: u32, end: u32, content_offset: u32, context: ScriptContext) -> Script {
    Script { start, end, content_offset, context, is_typescript: false, body: vec![] }
}

fn comment_texts(payload: &SvelteParseResult) -> Vec<&str> {
    payload.comments.iter().map(|comment| comment.text.as_str()).collect()
}

#[test]
fn empty_component_has_an_empty_payload() {
    let payload = build_parse_result("", &root(vec![]));
    assert!(payload.scripts.is_empty());
    assert!(payload.comments.is_empty());
    assert!(payload.warnings.is_empty());
    assert_eq!(payload.top_level_node_count, 0);
}

#[test]
fn scripts_come_in_source_order() {
    let source = "<script>a</script><script module>b</script>";
    let mut component = root(vec![]);
    component.instance = Some(script(0, 18, 8, ScriptContext::Default));
    component.module = Some(script(18, 43, 33, ScriptContext::Module));

    let payload = build_parse_result(source, &component);

    let kinds: Vec<SvelteScriptKind> = payload.scripts.iter().map(|script| script.kind).collect();
    assert_eq!(kinds, [SvelteScriptKind::Instance, SvelteScriptKind::Module]);
    assert_eq!(payload.scripts[0].tag_range.span, Span::new(0, 18));
    assert_eq!(payload.scripts[0].body_range.span, Span::new(8, 9));
    assert_eq!(payload.scripts[1].tag_range.span, Span::new(18, 43));
    assert_eq!(payload.scripts[1].body_range.span, Span::new(33, 34));
}

#[test]
fn scripts_that_start_together_have_the_module_first() {
    let mut component = root(vec![]);
    component.instance = Some(script(0, 0, 0, ScriptContext::Default));
    component.module = Some(script(0, 0, 0, ScriptContext::Module));

    let payload = build_parse_result("", &component);

    let kinds: Vec<SvelteScriptKind> = payload.scripts.iter().map(|script| script.kind).collect();
    assert_eq!(kinds, [SvelteScriptKind::Module, SvelteScriptKind::Instance]);
}

#[test]
fn comments_come_in_source_order_whatever_their_kind() {
    let mut component = root(vec![comment(5, "html")]);
    component.comments = vec![
        JsComment { kind: JsCommentKind::Line, start: 9, end: 11, value: "line".to_string() },
        JsComment { kind: JsCommentKind::Block, start: 1, end: 3, value: "block".to_string() },
        JsComment { kind: JsCommentKind::Block, start: 5, end: 6, value: "same".to_string() },
    ];

    let payload = build_parse_result("0123456789ab", &component);

    assert_eq!(comment_texts(&payload), ["block", "same", "html", "line"]);
    let kinds: Vec<SvelteCommentKind> =
        payload.comments.iter().map(|comment| comment.kind).collect();
    assert_eq!(
        kinds,
        [
            SvelteCommentKind::JsBlock,
            SvelteCommentKind::JsBlock,
            SvelteCommentKind::Html,
            SvelteCommentKind::JsLine,
        ]
    );
}

#[test]
fn comments_are_found_in_every_kind_of_node() {
    let component = root(vec![
        TemplateNode::IfBlock(IfBlock {
            consequent: holding(0, "consequent"),
            alternate: Some(holding(1, "alternate")),
        }),
        TemplateNode::EachBlock(EachBlock {
            body: holding(2, "body"),
            fallback: Some(holding(3, "fallback")),
        }),
        TemplateNode::AwaitBlock(AwaitBlock {
            pending: Some(holding(4, "pending")),
            then_branch: Some(holding(5, "then")),
            catch_branch: Some(holding(6, "catch")),
        }),
        TemplateNode::KeyBlock(holding(7, "key")),
        TemplateNode::SnippetBlock(holding(8, "snippet")),
        TemplateNode::RegularElement(holding(9, "element")),
        TemplateNode::Component(Component {
            references: vec![],
            fragment: holding(10, "component"),
        }),
        TemplateNode::TitleElement(holding(11, "title")),
        TemplateNode::SlotElement(holding(12, "slot")),
        TemplateNode::SvelteBody(holding(13, "svelte:body")),
        TemplateNode::SvelteDocument(holding(14, "svelte:document")),
        TemplateNode::SvelteFragment(holding(15, "svelte:fragment")),
        TemplateNode::SvelteBoundary(holding(16, "svelte:boundary")),
        TemplateNode::SvelteHead(holding(17, "svelte:head")),
        TemplateNode::SvelteOptions(holding(18, "svelte:options")),
        TemplateNode::SvelteSelf(holding(19, "svelte:self")),
        TemplateNode::SvelteWindow(holding(20, "svelte:window")),
        TemplateNode::SvelteComponent(holding(21, "svelte:component")),
        TemplateNode::SvelteElement(holding(22, "svelte:element")),
        TemplateNode::ExpressionTag,
        TemplateNode::HtmlTag,
        TemplateNode::ConstTag,
        TemplateNode::DeclarationTag,
        TemplateNode::DebugTag,
        TemplateNode::RenderTag,
        TemplateNode::AttachTag,
    ]);

    let payload = build_parse_result("0123456789abcdefghijklmn", &component);

    assert_eq!(
        comment_texts(&payload),
        [
            "consequent",
            "alternate",
            "body",
            "fallback",
            "pending",
            "then",
            "catch",
            "key",
            "snippet",
            "element",
            "component",
            "title",
            "slot",
            "svelte:body",
            "svelte:document",
            "svelte:fragment",
            "svelte:boundary",
            "svelte:head",
            "svelte:options",
            "svelte:self",
            "svelte:window",
            "svelte:component",
            "svelte:element",
        ]
    );
    assert_eq!(payload.top_level_node_count, 26);
}

#[test]
fn comments_are_found_at_any_depth() {
    let deep = TemplateNode::KeyBlock(fragment(vec![TemplateNode::RegularElement(fragment(vec![
        TemplateNode::IfBlock(IfBlock {
            consequent: fragment(vec![]),
            alternate: Some(holding(3, "deep")),
        }),
    ]))]));
    let payload = build_parse_result("01234", &root(vec![deep, comment(1, "shallow")]));
    assert_eq!(comment_texts(&payload), ["shallow", "deep"]);
    assert_eq!(payload.top_level_node_count, 2);
}

#[test]
fn joined_fragments_have_the_comments_of_their_parts_in_turn() {
    let source = "0123456789";
    let first = || vec![comment(7, "a"), TemplateNode::KeyBlock(holding(3, "b"))];
    let second = || vec![TemplateNode::Text, comment(1, "c")];
    let mut earlier = vec![];
    collect_html_comments(source, &holding(9, "earlier"), &mut earlier);

    let mut in_turn = earlier.clone();
    collect_html_comments(source, &fragment(first()), &mut in_turn);
    collect_html_comments(source, &fragment(second()), &mut in_turn);
    let mut joined = earlier.clone();
    let nodes = first().into_iter().chain(second()).collect();
    collect_html_comments(source, &fragment(nodes), &mut joined);

    assert_eq!(joined, in_turn);
    assert_eq!(joined[..earlier.len()], earlier[..]);
    let texts: Vec<&str> = joined.iter().map(|comment| comment.text.as_str()).collect();
    assert_eq!(texts, ["earlier", "a", "b", "c"]);
}

#[test]
fn js_comments_keep_their_text_and_place() {
    let comment = JsComment {
        kind: JsCommentKind::Line,
        start: 2,
        end: 5,
        value: " note ".to_string(),
    };
    let converted = convert_js_comment("a\n// note", &comment);
    assert_eq!(converted.kind, SvelteCommentKind::JsLine);
    assert_eq!(converted.text, " note ");
    assert_eq!(converted.range.span, Span::new(2, 5));
    assert_eq!((converted.range.start.line, converted.range.start.column), (2, 0));
    assert_eq!((converted.range.end.line, converted.range.end.column), (2, 3));
}

#[test]
fn script_body_ends_at_the_first_closing_tag() {
    let source = "<script>a</script >b</script>";
    assert_eq!(find_script_body_end(source, 8), Some(9));
    assert_eq!(find_script_body_end(source, 9), Some(9));
    assert_eq!(find_script_body_end(source, 10), Some(20));
    assert_eq!(find_script_body_end(source, 21), None);
}

#[test]
fn script_body_without_closing_tag_has_no_end() {
    assert_eq!(find_script_body_end("<script>a", 8), None);
    assert_eq!(find_script_body_end("<script>", 8), None);
    assert_eq!(find_script_body_end("<script>", 9), None);
    assert_eq!(find_script_body_end("", u32::MAX), None);
}

#[test]
fn script_body_starts_at_a_character_boundary() {
    let source = "\u{e9}</script>";
    assert_eq!(find_script_body_end(source, 0), Some(2));
    assert_eq!(find_script_body_end(source, 1), None);
    assert_eq!(find_script_body_end(source, 2), Some(2));
}

#[test]
fn unclosed_script_body_ends_with_its_tag() {
    let mut unclosed = script(0, 9, 8, ScriptContext::Default);
    unclosed.is_typescript = true;
    let converted = convert_script("<script>a", SvelteScriptKind::Instance, &unclosed);
    assert_eq!(converted.body_range.span, Span::new(8, 9));
    assert_eq!(converted.tag_range.span, Span::new(0, 9));
    assert!(converted.is_typescript);
}
