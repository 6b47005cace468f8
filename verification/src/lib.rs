//! Adapter between the Svelte compiler and the Oxc tools, with verified contracts.
//!
//! The compiler and the formatter are run from outside: every function here takes
//! what they answered, or settles what they are asked, as plain values, and says
//! exactly what is made of it.
//!
//! - [`parse`] has the entry points; [`compiler`] says which phases they need.
//! - [`payload`], [`script`], [`comment`] and [`diagnostic`] make up what a parse
//!   reports; [`semantic`] and [`binding`] add component-wide facts for lint rules.
//! - [`format`] settles what the formatter is asked to do.
//! - [`overrides`] and [`print_config`] serve the lint configuration; [`json`] holds
//!   what is believed of `serde_json`.
//! - [`span`], [`text`], [`order`] and [`search`] are the common ground.

pub mod ast;
pub mod binding;
pub mod comment;
pub mod compiler;
pub mod diagnostic;
pub mod format;
pub mod json;
pub mod order;
pub mod overrides;
pub mod parse;
pub mod payload;
pub mod print_config;
pub mod script;
pub mod search;
pub mod semantic;
pub mod span;
pub mod text;

pub use comment::{SvelteComment, SvelteCommentKind};
pub use diagnostic::{SvelteParseError, SvelteParseWarning};
pub use format::{
    format_svelte, format_svelte_with_config, format_svelte_with_options,
    format_svelte_with_options_and_indent, SvelteFormatOptions,
};
pub use overrides::{OxlintOverride, OxlintOverrides};
pub use parse::{
    parse_svelte, parse_svelte_for_lint, parse_svelte_summary, parse_svelte_syntax,
    SvelteParseSummary,
};
pub use payload::SvelteParseResult;
pub use print_config::run_print_config;
pub use script::{SvelteScript, SvelteScriptKind};
pub use semantic::SvelteSemanticSummary;
pub use span::{positions_fit, source_position, Span, SvelteSourcePosition, SvelteSourceRange};
