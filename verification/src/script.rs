//! Script blocks.

use vstd::prelude::*;
use vstd::utf8::encode_utf8;
#[allow(unused_imports)]
use vstd::utf8::is_char_boundary;

use crate::ast::{Script, ScriptContext};
#[allow(unused_imports)]
use crate::span::{lines_fit, position_at, range_at};
use crate::span::SvelteSourceRange;
use crate::text::find_bytes;
#[allow(unused_imports)]
use crate::text::{first_occurrence, law_first_occurrence_is_first, occurs_at};

verus! {

/// Svelte script block kind.
#[derive(Debug, Clone, Copy, PartialEq, Eq, Structural)]
pub enum SvelteScriptKind {
    Instance,
    Module,
}

/// Script tag metadata needed by linting and formatting entrypoints.
#[derive(Debug, Clone, PartialEq, Eq)]
pub struct SvelteScript {
    pub kind: SvelteScriptKind,
    pub tag_range: SvelteSourceRange,
    pub body_range: SvelteSourceRange,
    pub is_typescript: bool,
}

/// How a closing script tag begins.
pub open spec fn script_close() -> Seq<u8> {
    encode_utf8("</script"@)
}

/// Where the script body that starts at `body_start` ends: at the first closing
/// tag from there on. There is no end where `body_start` is not a character
/// boundary of the text, where no closing tag follows, and where its offset does
/// not fit into a `u32`.
pub open spec fn script_body_end(bytes: Seq<u8>, body_start: u32) -> Option<u32> {
    if !is_char_boundary(bytes, body_start as int) {
        None
    } else {
        match first_occurrence(bytes, body_start as int, script_close()) {
            Some(end) if end <= u32::MAX => Some(end as u32),
            _ => None,
        }
    }
}

/// Which kind of script block has which context.
pub open spec fn kind_of_context(context: ScriptContext) -> SvelteScriptKind {
    match context {
        ScriptContext::Default => SvelteScriptKind::Instance,
        ScriptContext::Module => SvelteScriptKind::Module,
    }
}

/// What is reported of a script block.
pub open spec fn script_of(bytes: Seq<u8>, kind: SvelteScriptKind, script: Script) -> SvelteScript {
    SvelteScript {
        kind,
        tag_range: range_at(bytes, script.start, script.end),
        body_range: range_at(
            bytes,
            script.content_offset,
            match script_body_end(bytes, script.content_offset) {
                Some(end) => end,
                None => script.end,
            },
        ),
        is_typescript: script.is_typescript,
    }
}

/// A script body that has an end runs up to a closing tag, and no closing tag
/// stands inside it.
pub proof fn law_script_body_holds_no_close_tag(bytes: Seq<u8>, body_start: u32)
    ensures
        script_body_end(bytes, body_start) matches Some(end) ==> {
            &&& body_start <= end
            &&& occurs_at(bytes, end as int, script_close())
            &&& forall|i: int|
                body_start <= i < end ==> !#[trigger] occurs_at(bytes, i, script_close())
        },
{
    law_first_occurrence_is_first(bytes, body_start as int, script_close());
}

/// Where the script body that starts at `body_start` ends.
pub fn find_script_body_end(source: &str, body_start: u32) -> (r: Option<u32>)
    ensures
        r == script_body_end(encode_utf8(source@), body_start),
{
    let bytes: &[u8] = source.as_bytes();
    let start: usize = body_start as usize;
    if start > bytes.len() || !source.is_char_boundary(start) {
        proof {
            vstd::utf8::encode_utf8_valid_utf8(source@);
        }
        return None;
    }
    match find_bytes(bytes, start, "</script".as_bytes()) {
        Some(end) => if end <= u32::MAX as usize {
            Some(end as u32)
        } else {
            None
        },
        None => None,
    }
}

/// The kind, place and language of a script block.
pub fn convert_script(source: &str, kind: SvelteScriptKind, script: &Script) -> (r: SvelteScript)
    requires
        lines_fit(encode_utf8(source@)),
        kind == kind_of_context(script.context),
    ensures
        r == script_of(encode_utf8(source@), kind, *script),
{
    let body_start: u32 = script.content_offset;
    let body_end: u32 = match find_script_body_end(source, body_start) {
        Some(end) => end,
        None => script.end,
    };
    SvelteScript {
        kind,
        tag_range: SvelteSourceRange::new(source, script.start, script.end),
        body_range: SvelteSourceRange::new(source, body_start, body_end),
        is_typescript: script.is_typescript,
    }
}

/// The bytes of `</script`.
pub proof fn law_close_tag_bytes()
    ensures
        script_close() == seq![60u8, 47u8, 115u8, 99u8, 114u8, 105u8, 112u8, 116u8],
{
    reveal_strlit("</script");
    vstd::utf8::is_ascii_chars_encode_utf8("</script"@);
    assert(script_close() =~= seq![60u8, 47u8, 115u8, 99u8, 114u8, 105u8, 112u8, 116u8]);
}

/// A script body ends at `end` where it starts at a character boundary and the first
/// `</script` from there on stands at `end`; it has no end where no `</script`
/// follows, where the first one is out of the reach of a `u32`, and where it does not
/// start at a character boundary.
pub proof fn law_script_body_ends_at_the_first_close_tag(
    bytes: Seq<u8>,
    body_start: u32,
    end: int,
    close: Seq<u8>,
)
    requires
        close == seq![60u8, 47u8, 115u8, 99u8, 114u8, 105u8, 112u8, 116u8],
        body_start <= end,
        forall|i: int|
            body_start <= i < end ==> !#[trigger] occurs_at(bytes, i, close),
    ensures
        occurs_at(bytes, end, close) && is_char_boundary(bytes, body_start as int) ==> (if end <= u32::MAX {
            script_body_end(bytes, body_start) == Some(end as u32)
        } else {
            script_body_end(bytes, body_start) is None
        }),
        end >= bytes.len() ==> script_body_end(bytes, body_start) is None,
        !is_char_boundary(bytes, body_start as int) ==> script_body_end(bytes, body_start) is None,
{
    law_close_tag_bytes();
    law_first_occurrence_is_first(bytes, body_start as int, script_close());
}

/// A script block keeps its kind, its language, its tag and the start of its body;
/// its body ends where [`script_body_end`] says, or else with its tag.
pub proof fn law_script_is_kept(bytes: Seq<u8>, kind: SvelteScriptKind, script: Script)
    ensures
        ({
            let kept = script_of(bytes, kind, script);
            &&& kept.kind == kind
            &&& kept.is_typescript == script.is_typescript
            &&& kept.tag_range.span.start == script.start
            &&& kept.tag_range.span.end == script.end
            &&& kept.tag_range.start == position_at(bytes, script.start)
            &&& kept.tag_range.end == position_at(bytes, script.end)
            &&& kept.body_range.span.start == script.content_offset
            &&& kept.body_range.start == position_at(bytes, script.content_offset)
            &&& kept.body_range.end == position_at(bytes, kept.body_range.span.end)
            &&& script_body_end(bytes, script.content_offset) == Some(kept.body_range.span.end) || (
            script_body_end(bytes, script.content_offset) is None && kept.body_range.span.end
                == script.end)
        }),
{
}

/// A block with the default context belongs to each instance, and one with the
/// module context to the module.
pub proof fn law_context_settles_the_kind()
    ensures
        kind_of_context(ScriptContext::Default) == SvelteScriptKind::Instance,
        kind_of_context(ScriptContext::Module) == SvelteScriptKind::Module,
{
}

} // verus!
