//! What the formatter is asked to do.
//!
//! The formatter runs outside; these entry points settle what it is handed. The
//! types of its own options are left open: `J` for JavaScript, `C` for
//! stylesheets, `S` for the order of the sections of a component. What the
//! formatter has by default for these is an argument.

use vstd::prelude::*;

verus! {

/// Svelte-specific formatting controls on top of the JavaScript options.
#[derive(Debug, Clone)]
pub struct SvelteFormatOptions<C> {
    pub indent_script_and_style: bool,
    /// The order of the sections, as the configuration spells it.
    pub sort_order: Option<String>,
    pub allow_shorthand: bool,
    pub single_attribute_per_line: bool,
    pub bracket_same_line: bool,
    /// How to format stylesheets; they are left alone where nothing says how.
    pub style_options: Option<C>,
}

/// One call of the formatter. What it does not name is as the formatter has it by
/// default.
#[derive(Debug)]
pub struct FormatRequest<'a, J, C, S> {
    pub source: &'a str,
    pub js: J,
    /// The options of the native style formatter, where it is to run.
    pub style_options: Option<C>,
    pub single_attribute_per_line: bool,
    pub allow_shorthand: bool,
    pub indent_script_and_style: bool,
    pub sort_order: S,
    pub bracket_same_line: bool,
}

/// The controls of a call that sets none.
pub open spec fn default_options<C>() -> SvelteFormatOptions<C> {
    SvelteFormatOptions {
        indent_script_and_style: true,
        sort_order: None,
        allow_shorthand: true,
        single_attribute_per_line: false,
        bracket_same_line: false,
        style_options: None,
    }
}

/// The call that formats `source` with these options.
pub open spec fn request_for<'a, J, C, S>(
    source: &'a str,
    js: J,
    options: SvelteFormatOptions<C>,
    sort_order: S,
) -> FormatRequest<'a, J, C, S> {
    FormatRequest {
        source,
        js,
        style_options: options.style_options,
        single_attribute_per_line: options.single_attribute_per_line,
        allow_shorthand: options.allow_shorthand,
        indent_script_and_style: options.indent_script_and_style,
        sort_order,
        bracket_same_line: options.bracket_same_line,
    }
}

/// The sort order to use: the configured one where there is one and the formatter
/// could read it, and otherwise the default.
pub open spec fn sort_order_for<S>(configured: Option<String>, parsed: Option<S>, default: S) -> S {
    match (configured, parsed) {
        (Some(_), Some(sort_order)) => sort_order,
        _ => default,
    }
}

/// What the full option set asks for.
pub open spec fn config_request<'a, J, C, S>(
    source: &'a str,
    js: J,
    options: SvelteFormatOptions<C>,
    parsed_sort_order: Option<S>,
    default_sort_order: S,
) -> FormatRequest<'a, J, C, S> {
    request_for(
        source,
        js,
        options,
        sort_order_for(options.sort_order, parsed_sort_order, default_sort_order),
    )
}

/// What JavaScript options and the choice of indentation ask for.
pub open spec fn indent_request<'a, J, C, S>(
    source: &'a str,
    js: J,
    indent_script_and_style: bool,
    default_sort_order: S,
) -> FormatRequest<'a, J, C, S> {
    config_request(
        source,
        js,
        SvelteFormatOptions { indent_script_and_style, ..default_options::<C>() },
        None,
        default_sort_order,
    )
}

/// What JavaScript options alone ask for.
pub open spec fn options_request<'a, J, C, S>(
    source: &'a str,
    js: J,
    default_sort_order: S,
) -> FormatRequest<'a, J, C, S> {
    request_for(source, js, default_options::<C>(), default_sort_order)
}

/// The entry points agree. Options with the choice of indentation ask for what the
/// full option set asks for with all else at its default, whatever its sort order
/// would be read as; indented, they ask for what the options alone ask for, which
/// is what no options ask for where they are the default ones.
pub proof fn law_entry_points_agree<'a, J, C, S>(
    source: &'a str,
    js: J,
    indent_script_and_style: bool,
    parsed_sort_order: Option<S>,
    default_sort_order: S,
)
    ensures
        indent_request::<J, C, S>(source, js, indent_script_and_style, default_sort_order)
            == config_request(
            source,
            js,
            (SvelteFormatOptions {
                indent_script_and_style,
                sort_order: None,
                allow_shorthand: true,
                single_attribute_per_line: false,
                bracket_same_line: false,
                style_options: None::<C>,
            }),
            parsed_sort_order,
            default_sort_order,
        ),
        indent_script_and_style ==> indent_request::<J, C, S>(
            source,
            js,
            indent_script_and_style,
            default_sort_order,
        ) == options_request::<J, C, S>(source, js, default_sort_order),
{
}

/// Indented scripts and stylesheets are the default, and the choice changes
/// nothing else.
pub proof fn law_indent_is_the_only_choice<'a, J, C, S>(
    source: &'a str,
    js: J,
    indent_script_and_style: bool,
    sort_order: S,
)
    ensures
        (SvelteFormatOptions { indent_script_and_style: true, ..default_options::<C>() })
            == default_options::<C>(),
        request_for(
            source,
            js,
            (SvelteFormatOptions { indent_script_and_style, ..default_options::<C>() }),
            sort_order,
        ) == (FormatRequest {
            indent_script_and_style,
            ..request_for(source, js, default_options::<C>(), sort_order)
        }),
{
}

impl<C> Default for SvelteFormatOptions<C> {
    fn default() -> (r: Self)
        ensures
            r == default_options::<C>(),
    {
        Self {
            indent_script_and_style: true,
            sort_order: None,
            allow_shorthand: true,
            single_attribute_per_line: false,
            bracket_same_line: false,
            style_options: None,
        }
    }
}

/// Formats with all options at their defaults.
pub fn format_svelte<'a, J, C: Copy, S>(
    source: &'a str,
    default_js_options: J,
    default_sort_order: S,
) -> (r: FormatRequest<'a, J, C, S>)
    ensures
        r == options_request::<J, C, S>(source, default_js_options, default_sort_order),
{
    format_svelte_with_options(source, default_js_options, default_sort_order)
}

/// Formats with JavaScript options.
pub fn format_svelte_with_options<'a, J, C: Copy, S>(
    source: &'a str,
    js_options: J,
    default_sort_order: S,
) -> (r: FormatRequest<'a, J, C, S>)
    ensures
        r == options_request::<J, C, S>(source, js_options, default_sort_order),
{
    format_svelte_with_options_and_indent(source, js_options, true, default_sort_order)
}

/// Formats with JavaScript options and control over the indentation of scripts
/// and stylesheets.
pub fn format_svelte_with_options_and_indent<'a, J, C: Copy, S>(
    source: &'a str,
    js_options: J,
    indent_script_and_style: bool,
    default_sort_order: S,
) -> (r: FormatRequest<'a, J, C, S>)
    ensures
        r == indent_request::<J, C, S>(
            source,
            js_options,
            indent_script_and_style,
            default_sort_order,
        ),
{
    let mut svelte_options: SvelteFormatOptions<C> = SvelteFormatOptions::default();
    svelte_options.indent_script_and_style = indent_script_and_style;
    format_svelte_with_config(source, js_options, &svelte_options, None, default_sort_order)
}

/// Formats with the full option set. `parsed_sort_order` is what the formatter
/// reads the configured sort order as.
pub fn format_svelte_with_config<'a, J, C: Copy, S>(
    source: &'a str,
    js_options: J,
    svelte_options: &SvelteFormatOptions<C>,
    parsed_sort_order: Option<S>,
    default_sort_order: S,
) -> (r: FormatRequest<'a, J, C, S>)
    ensures
        r == config_request(
            source,
            js_options,
            *svelte_options,
            parsed_sort_order,
            default_sort_order,
        ),
{
    let sort_order = match parsed_sort_order {
        Some(parsed) if svelte_options.sort_order.is_some() => parsed,
        _ => default_sort_order,
    };
    FormatRequest {
        source,
        js: js_options,
        style_options: svelte_options.style_options,
        single_attribute_per_line: svelte_options.single_attribute_per_line,
        allow_shorthand: svelte_options.allow_shorthand,
        indent_script_and_style: svelte_options.indent_script_and_style,
        sort_order,
        bracket_same_line: svelte_options.bracket_same_line,
    }
}

/// The formatter is handed the source, the JavaScript options and every single Svelte
/// option as they were given, each whatever the others are.
pub proof fn law_request_hands_over_every_option<'a, J, C, S>(
    source: &'a str,
    js: J,
    options: SvelteFormatOptions<C>,
    parsed_sort_order: Option<S>,
    default_sort_order: S,
)
    ensures
        ({
            let request = config_request(
                source,
                js,
                options,
                parsed_sort_order,
                default_sort_order,
            );
            &&& request.source == source
            &&& request.js == js
            &&& request.style_options == options.style_options
            &&& request.single_attribute_per_line == options.single_attribute_per_line
            &&& request.allow_shorthand == options.allow_shorthand
            &&& request.indent_script_and_style == options.indent_script_and_style
            &&& request.bracket_same_line == options.bracket_same_line
        }),
{
}

/// The sort order is the configured one if it could be read, and otherwise the
/// default, whatever the other options are.
pub proof fn law_request_sorts_as_configured<'a, J, C, S>(
    source: &'a str,
    js: J,
    options: SvelteFormatOptions<C>,
    parsed_sort_order: Option<S>,
    default_sort_order: S,
)
    ensures
        ({
            let request = config_request(
                source,
                js,
                options,
                parsed_sort_order,
                default_sort_order,
            );
            &&& options.sort_order is Some && parsed_sort_order is Some ==> request.sort_order
                == parsed_sort_order->0
            &&& options.sort_order is None || parsed_sort_order is None ==> request.sort_order
                == default_sort_order
        }),
{
}

/// On any option set, a change of the indentation changes the indentation that is
/// asked for and nothing else.
pub proof fn law_indentation_is_independent<'a, J, C, S>(
    source: &'a str,
    js: J,
    options: SvelteFormatOptions<C>,
    indent_script_and_style: bool,
    parsed_sort_order: Option<S>,
    default_sort_order: S,
)
    ensures
        config_request(
            source,
            js,
            (SvelteFormatOptions { indent_script_and_style, ..options }),
            parsed_sort_order,
            default_sort_order,
        ) == (FormatRequest {
            indent_script_and_style,
            ..config_request(source, js, options, parsed_sort_order, default_sort_order)
        }),
{
}

/// Without further options scripts and stylesheets are indented, shorthand is allowed,
/// attributes share a line, brackets stand on their own, and stylesheets are left
/// alone.
pub proof fn law_plain_requests_use_the_defaults<'a, J, C, S>(
    source: &'a str,
    js: J,
    indent_script_and_style: bool,
    default_sort_order: S,
)
    ensures
        ({
            let plain = options_request::<J, C, S>(source, js, default_sort_order);
            let chosen = indent_request::<J, C, S>(
                source,
                js,
                indent_script_and_style,
                default_sort_order,
            );
            &&& plain.source == source && chosen.source == source
            &&& plain.js == js && chosen.js == js
            &&& plain.style_options is None && chosen.style_options is None
            &&& !plain.single_attribute_per_line && !chosen.single_attribute_per_line
            &&& plain.allow_shorthand && chosen.allow_shorthand
            &&& plain.indent_script_and_style
            &&& chosen.indent_script_and_style == indent_script_and_style
            &&& plain.sort_order == default_sort_order && chosen.sort_order == default_sort_order
            &&& !plain.bracket_same_line && !chosen.bracket_same_line
        }),
{
}

/// The default options are those that the plain entry points use.
pub proof fn law_default_options<C>()
    ensures
        default_options::<C>().indent_script_and_style,
        default_options::<C>().sort_order is None,
        default_options::<C>().allow_shorthand,
        !default_options::<C>().single_attribute_per_line,
        !default_options::<C>().bracket_same_line,
        default_options::<C>().style_options is None,
{
}

} // verus!
