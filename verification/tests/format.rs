use oxc_svelte_backend::format::FormatRequest;
use oxc_svelte_backend::{
    format_svelte, format_svelte_with_config, format_svelte_with_options,
    format_svelte_with_options_and_indent, SvelteFormatOptions,
};

/// A request with a line width for scripts and stylesheets, and a named order.
type Request = FormatRequest<'static, u32, u8, String>;

const SOURCE: &str = "<script>let count=1+2</script>";

fn default_order() -> String {
    "default".to_string()
}

fn settings(request: &Request) -> (u32, Option<u8>, [bool; 4], &str) {
    let flags = [
        request.single_attribute_per_line,
        request.allow_shorthand,
        request.indent_script_and_style,
        request.bracket_same_line,
    ];
    (request.js, request.style_options, flags, request.sort_order.as_str())
}

#[test]
fn defaults_are_handed_to_the_formatter() {
    let request: Request = format_svelte(SOURCE, 80, default_order());
    assert_eq!(request.source, SOURCE);
    assert_eq!(settings(&request), (80, None, [false, true, true, false], "default"));
}

#[test]
fn js_options_are_handed_to_the_formatter() {
    let request: Request = format_svelte_with_options(SOURCE, 100, default_order());
    assert_eq!(settings(&request), (100, None, [false, true, true, false], "default"));
}

#[test]
fn indentation_can_be_switched_off() {
    let request: Request =
        format_svelte_with_options_and_indent(SOURCE, 100, false, default_order());
    assert_eq!(settings(&request), (100, None, [false, true, false, false], "default"));
    let indented: Request =
        format_svelte_with_options_and_indent(SOURCE, 100, true, default_order());
    let plain: Request = format_svelte_with_options(SOURCE, 100, default_order());
    assert_eq!(settings(&indented), settings(&plain));
}

#[test]
fn all_options_are_handed_to_the_formatter() {
    let options = SvelteFormatOptions {
        indent_script_and_style: false,
        sort_order: Some("scripts-markup-styles".to_string()),
        allow_shorthand: false,
        single_attribute_per_line: true,
        bracket_same_line: true,
        style_options: Some(7),
    };
    let parsed = Some("parsed".to_string());
    let request: Request =
        format_svelte_with_config(SOURCE, 80, &options, parsed, default_order());
    assert_eq!(settings(&request), (80, Some(7), [true, false, false, true], "parsed"));
}

#[test]
fn unreadable_sort_orders_give_the_default() {
    let mut options: SvelteFormatOptions<u8> = SvelteFormatOptions::default();
    options.sort_order = Some("nonsense".to_string());
    let request: Request =
        format_svelte_with_config(SOURCE, 80, &options, None, default_order());
    assert_eq!(request.sort_order, "default");
    options.sort_order = None;
    let stray = Some("stray".to_string());
    let request: Request =
        format_svelte_with_config(SOURCE, 80, &options, stray, default_order());
    assert_eq!(request.sort_order, "default");
}

#[test]
fn entry_points_agree() {
    let options: SvelteFormatOptions<u8> = SvelteFormatOptions::default();
    let configured: Request =
        format_svelte_with_config(SOURCE, 80, &options, None, default_order());
    let indented: Request =
        format_svelte_with_options_and_indent(SOURCE, 80, true, default_order());
    let plain: Request = format_svelte_with_options(SOURCE, 80, default_order());
    let bare: Request = format_svelte(SOURCE, 80, default_order());
    for request in [&configured, &indented, &plain] {
        assert_eq!(request.source, bare.source);
        assert_eq!(settings(request), settings(&bare));
    }
}
