//! The `overrides` section of the lint configuration.

use vstd::prelude::*;

use crate::json::remove_key;
#[allow(unused_imports)]
use crate::json::{json_content, Json};
#[allow(unused_imports)]
use vstd::std_specs::iter::IteratorSpec;

verus! {

/// One entry of the `overrides` section.
#[derive(Debug, Clone, PartialEq, Eq)]
#[non_exhaustive]
pub struct OxlintOverride {
    /// A list of glob patterns to override.
    ///
    /// ## Example
    /// `[ "*.test.ts", "*.spec.ts" ]`
    pub files: Vec<String>,
    /// A list of glob patterns to exclude from this override.
    ///
    /// Files matching these patterns are not globally ignored; this override
    /// simply does not apply to them.
    ///
    /// ## Example
    /// `[ "*.generated.ts", "fixtures/**" ]`
    pub exclude_files: Vec<String>,
    /// Environments enable and disable collections of global variables.
    pub env: Option<Vec<(String, bool)>>,
    /// Enabled or disabled specific global variables.
    pub globals: Option<Vec<(String, String)>>,
    /// Plugin-specific configuration for both built-in and custom plugins, as
    /// JSON text.
    pub settings: Option<String>,
    /// Optionally change what plugins are enabled for this override. When
    /// omitted, the base config's plugins are used.
    pub plugins: Option<Vec<String>>,
    /// JS plugins for this override.
    pub external_plugins: Option<Vec<String>>,
    /// Internal ID for `languageOptions` loaded from `oxlint.config.ts`.
    pub language_options_id: Option<u32>,
    /// Internal parser-presence flag for `languageOptions` loaded from
    /// `oxlint.config.ts`.
    pub language_options_has_parser: Option<bool>,
    /// The configured rules, each with its configuration as JSON text.
    pub rules: Vec<(String, String)>,
}

/// The fields of an override that a user may write.
#[derive(Debug, Default)]
pub struct PublicOxlintOverride {
    pub files: Vec<String>,
    pub exclude_files: Vec<String>,
    pub env: Option<Vec<(String, bool)>>,
    pub globals: Option<Vec<(String, String)>>,
    pub settings: Option<String>,
    pub plugins: Option<Vec<String>>,
    pub external_plugins: Option<Vec<String>>,
    pub rules: Vec<(String, String)>,
}

/// All fields of an override, those that only tools write among them.
#[derive(Debug, Default)]
pub struct InternalOxlintOverride {
    pub files: Vec<String>,
    pub exclude_files: Vec<String>,
    pub env: Option<Vec<(String, bool)>>,
    pub globals: Option<Vec<(String, String)>>,
    pub settings: Option<String>,
    pub plugins: Option<Vec<String>>,
    pub external_plugins: Option<Vec<String>>,
    pub language_options_id: Option<u32>,
    pub language_options_has_parser: Option<bool>,
    pub rules: Vec<(String, String)>,
}

impl Default for OxlintOverride {
    fn default() -> (r: Self)
        ensures
            r.files@.len() == 0,
            r.exclude_files@.len() == 0,
            r.env is None,
            r.globals is None,
            r.settings is None,
            r.plugins is None,
            r.external_plugins is None,
            r.language_options_id is None,
            r.language_options_has_parser is None,
            r.rules@.len() == 0,
    {
        Self {
            files: Vec::new(),
            exclude_files: Vec::new(),
            env: None,
            globals: None,
            settings: None,
            plugins: None,
            external_plugins: None,
            language_options_id: None,
            language_options_has_parser: None,
            rules: Vec::new(),
        }
    }
}

/// The `overrides` section.
#[derive(Debug, Clone)]
pub struct OxlintOverrides(Vec<OxlintOverride>);

impl View for OxlintOverrides {
    type V = Seq<OxlintOverride>;

    closed spec fn view(&self) -> Seq<OxlintOverride> {
        self.0@
    }
}

impl OxlintOverrides {
    /// A section without overrides.
    pub fn empty() -> (r: Self)
        ensures
            r@ == Seq::<OxlintOverride>::empty(),
    {
        Self(Vec::new())
    }

    /// Returns `true` if the overrides list has no elements.
    pub fn is_empty(&self) -> (r: bool)
        ensures
            r == (self@.len() == 0),
    {
        self.0.is_empty()
    }

    /// The section with these overrides.
    pub fn from_vec(overrides: Vec<OxlintOverride>) -> (r: Self)
        ensures
            r@ == overrides@,
    {
        Self(overrides)
    }
}

impl Default for OxlintOverrides {
    fn default() -> (r: Self)
        ensures
            r@ == Seq::<OxlintOverride>::empty(),
    {
        Self::empty()
    }
}

impl core::ops::Deref for OxlintOverrides {
    type Target = Vec<OxlintOverride>;

    fn deref(&self) -> (r: &Vec<OxlintOverride>)
        ensures
            r@ == self@,
    {
        &self.0
    }
}

impl core::ops::DerefMut for OxlintOverrides {
    fn deref_mut(&mut self) -> (r: &mut Vec<OxlintOverride>)
        ensures
            r@ == old(self)@,
            final(self)@ == final(r)@,
    {
        &mut self.0
    }
}

impl IntoIterator for OxlintOverrides {
    type Item = OxlintOverride;

    type IntoIter = std::vec::IntoIter<OxlintOverride>;

    fn into_iter(self) -> (r: std::vec::IntoIter<OxlintOverride>)
        ensures
            r.remaining() == self@,
    {
        broadcast use vstd::std_specs::vec::axiom_spec_into_iter;

        self.0.into_iter()
    }
}

impl<'a> IntoIterator for &'a OxlintOverrides {
    type Item = &'a OxlintOverride;

    type IntoIter = std::slice::Iter<'a, OxlintOverride>;

    fn into_iter(self) -> (r: std::slice::Iter<'a, OxlintOverride>)
        ensures
            r.remaining().unref() == self@,
    {
        self.0.iter()
    }
}

/// The key of the internal `languageOptions` identifier.
pub open spec fn language_options_id_key() -> Seq<char> {
    "_languageOptionsId"@
}

/// The key of the internal parser-presence flag.
pub open spec fn language_options_has_parser_key() -> Seq<char> {
    "_languageOptionsHasParser"@
}

/// A document without the internal `languageOptions` fields at its top level. A
/// document that is no object has none.
pub open spec fn without_internal_fields(content: Json) -> Json {
    match content {
        Json::Object(entries) => Json::Object(
            entries.remove(language_options_id_key()).remove(language_options_has_parser_key()),
        ),
        _ => content,
    }
}

/// Takes the internal `languageOptions` fields out of an override.
pub fn strip_internal_language_options_fields(value: &mut serde_json::Value)
    ensures
        json_content(*final(value)) == without_internal_fields(json_content(*old(value))),
{
    if let Some(object) = value.as_object_mut() {
        remove_key(object, "_languageOptionsId");
        remove_key(object, "_languageOptionsHasParser");
    }
}

/// What is held against the fields that a user may write: the override as it is
/// written, without its internal fields.
pub fn public_value(raw_value: &serde_json::Value) -> (r: serde_json::Value)
    ensures
        json_content(r) == without_internal_fields(json_content(*raw_value)),
{
    let mut public_value = raw_value.clone();
    strip_internal_language_options_fields(&mut public_value);
    public_value
}

impl InternalOxlintOverride {
    /// The override with these fields.
    pub open spec fn as_override(self) -> OxlintOverride {
        OxlintOverride {
            files: self.files,
            exclude_files: self.exclude_files,
            env: self.env,
            globals: self.globals,
            settings: self.settings,
            plugins: self.plugins,
            external_plugins: self.external_plugins,
            language_options_id: self.language_options_id,
            language_options_has_parser: self.language_options_has_parser,
            rules: self.rules,
        }
    }
}

impl OxlintOverride {
    /// Decides on an override from its two readings: that of [`public_value`]
    /// against the fields that a user may write, and that of the override as it is
    /// written against all fields. The first is only a check; the second gives the
    /// fields.
    pub fn deserialize<E>(
        public: Result<PublicOxlintOverride, E>,
        raw: Result<InternalOxlintOverride, E>,
    ) -> (r: Result<Self, E>)
        ensures
            r == (match (public, raw) {
                (Err(error), _) => Err(error),
                (Ok(_), Err(error)) => Err(error),
                (Ok(_), Ok(raw)) => Ok(raw.as_override()),
            }),
            r is Ok <==> public is Ok && raw is Ok,
            public is Err ==> r->Err_0 == public->Err_0,
            public is Ok && raw is Err ==> r->Err_0 == raw->Err_0,
            r is Ok ==> {
                &&& r->Ok_0.files == raw->Ok_0.files
                &&& r->Ok_0.exclude_files == raw->Ok_0.exclude_files
                &&& r->Ok_0.env == raw->Ok_0.env
                &&& r->Ok_0.globals == raw->Ok_0.globals
                &&& r->Ok_0.settings == raw->Ok_0.settings
                &&& r->Ok_0.plugins == raw->Ok_0.plugins
                &&& r->Ok_0.external_plugins == raw->Ok_0.external_plugins
                &&& r->Ok_0.language_options_id == raw->Ok_0.language_options_id
                &&& r->Ok_0.language_options_has_parser == raw->Ok_0.language_options_has_parser
                &&& r->Ok_0.rules == raw->Ok_0.rules
            },
    {
        match public {
            Err(error) => return Err(error),
            Ok(_) => {},
        }
        match raw {
            Err(error) => Err(error),
            Ok(raw) => Ok(
                Self {
                    files: raw.files,
                    exclude_files: raw.exclude_files,
                    env: raw.env,
                    globals: raw.globals,
                    settings: raw.settings,
                    plugins: raw.plugins,
                    external_plugins: raw.external_plugins,
                    language_options_id: raw.language_options_id,
                    language_options_has_parser: raw.language_options_has_parser,
                    rules: raw.rules,
                },
            ),
        }
    }
}

/// No internal field is left at the top level of what is held against the fields
/// that a user may write.
pub proof fn law_internal_fields_are_gone(content: Json)
    requires
        content is Object,
    ensures
        without_internal_fields(content) is Object,
        !without_internal_fields(content)->Object_0.contains_key(language_options_id_key()),
        !without_internal_fields(content)->Object_0.contains_key(language_options_has_parser_key()),
{
}

/// Every other field is left as it is, so that an unknown one is still refused.
pub proof fn law_other_fields_are_kept(content: Json, key: Seq<char>)
    requires
        content is Object,
        key != language_options_id_key(),
        key != language_options_has_parser_key(),
    ensures
        without_internal_fields(content)->Object_0.contains_key(key)
            == content->Object_0.contains_key(key),
        content->Object_0.contains_key(key) ==> without_internal_fields(content)->Object_0[key]
            == content->Object_0[key],
{
}

/// Taking the internal fields out twice is taking them out once.
pub proof fn law_stripping_is_idempotent(content: Json)
    ensures
        without_internal_fields(without_internal_fields(content)) == without_internal_fields(
            content,
        ),
{
    if let Json::Object(entries) = content {
        let once = entries.remove(language_options_id_key()).remove(
            language_options_has_parser_key(),
        );
        assert(once.remove(language_options_id_key()).remove(language_options_has_parser_key())
            =~= once);
    }
}

/// An override has each field as the full reading has it, whatever the other fields
/// are.
pub proof fn law_override_has_every_field_that_was_read(raw: InternalOxlintOverride)
    ensures
        raw.as_override().files == raw.files,
        raw.as_override().exclude_files == raw.exclude_files,
        raw.as_override().env == raw.env,
        raw.as_override().globals == raw.globals,
        raw.as_override().settings == raw.settings,
        raw.as_override().plugins == raw.plugins,
        raw.as_override().external_plugins == raw.external_plugins,
        raw.as_override().language_options_id == raw.language_options_id,
        raw.as_override().language_options_has_parser == raw.language_options_has_parser,
        raw.as_override().rules == raw.rules,
{
}

/// What is held against the fields that a user may write is the override without the
/// two internal keys: neither is left, every other key is there exactly where it was
/// and with what it held, and a document that is no object is left alone.
pub proof fn law_only_internal_keys_are_stripped(content: Json, key: Seq<char>)
    ensures
        !(content is Object) ==> without_internal_fields(content) == content,
        content is Object ==> {
            let before = content->Object_0;
            let after = without_internal_fields(content)->Object_0;
            &&& without_internal_fields(content) is Object
            &&& after.contains_key(key) <==> before.contains_key(key) && key
                != "_languageOptionsId"@ && key != "_languageOptionsHasParser"@
            &&& after.contains_key(key) ==> after[key] == before[key]
        },
{
}

} // verus!
