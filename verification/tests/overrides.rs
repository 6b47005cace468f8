use oxc_svelte_backend::overrides::{
    public_value, strip_internal_language_options_fields, InternalOxlintOverride,
    PublicOxlintOverride,
};
use oxc_svelte_backend::{OxlintOverride, OxlintOverrides};
use serde_json::Value;

const WRITTEN: &str = r#"{
    "files": ["*.tsx"],
    "_languageOptionsId": 3,
    "_languageOptionsHasParser": true,
    "rules": { "_languageOptionsId": "off" }
}"#;

const PUBLIC: &str = r#"{ "files": ["*.tsx"], "rules": { "_languageOptionsId": "off" } }"#;

fn json(text: &str) -> Value {
    serde_json::from_str(text).unwrap()
}

fn internal() -> InternalOxlintOverride {
    InternalOxlintOverride {
        files: vec!["*.tsx".to_string()],
        exclude_files: vec!["*.generated.tsx".to_string()],
        env: Some(vec![("es2022".to_string(), true)]),
        globals: Some(vec![("Foo".to_string(), "readonly".to_string())]),
        settings: Some("{}".to_string()),
        plugins: Some(vec!["react".to_string()]),
        external_plugins: Some(vec!["custom".to_string()]),
        language_options_id: Some(3),
        language_options_has_parser: Some(true),
        rules: vec![("no-debugger".to_string(), "\"error\"".to_string())],
    }
}

fn override_of(files: &str) -> OxlintOverride {
    let mut raw = internal();
    raw.files = vec![files.to_string()];
    OxlintOverride::deserialize::<String>(Ok(PublicOxlintOverride::default()), Ok(raw)).unwrap()
}

#[test]
fn internal_fields_are_stripped_at_the_top_level() {
    let mut value = json(WRITTEN);
    strip_internal_language_options_fields(&mut value);
    assert_eq!(value, json(PUBLIC));
}

#[test]
fn stripping_twice_is_stripping_once() {
    let mut value = json(PUBLIC);
    strip_internal_language_options_fields(&mut value);
    assert_eq!(value, json(PUBLIC));
}

#[test]
fn other_fields_are_kept() {
    let unknown = r#"{ "files": [], "unknown": null, "_languageOptions": 1 }"#;
    assert_eq!(public_value(&json(unknown)), json(unknown));
}

#[test]
fn values_that_are_no_object_are_left_alone() {
    for text in [r#"["_languageOptionsId"]"#, r#""_languageOptionsId""#, "null", "7", "true"] {
        let mut value = json(text);
        strip_internal_language_options_fields(&mut value);
        assert_eq!(value, json(text));
    }
}

#[test]
fn the_written_value_stays_as_it_is() {
    let written = json(WRITTEN);
    assert_eq!(public_value(&written), json(PUBLIC));
    assert_eq!(written, json(WRITTEN));
}

#[test]
fn the_full_reading_gives_the_fields() {
    let public = PublicOxlintOverride { files: vec!["other".to_string()], ..Default::default() };
    let read = OxlintOverride::deserialize::<String>(Ok(public), Ok(internal())).unwrap();
    assert_eq!(read.files, ["*.tsx"]);
    assert_eq!(read.exclude_files, ["*.generated.tsx"]);
    assert_eq!(read.env, Some(vec![("es2022".to_string(), true)]));
    assert_eq!(read.globals, Some(vec![("Foo".to_string(), "readonly".to_string())]));
    assert_eq!(read.settings.as_deref(), Some("{}"));
    assert_eq!(read.plugins, Some(vec!["react".to_string()]));
    assert_eq!(read.external_plugins, Some(vec!["custom".to_string()]));
    assert_eq!(read.language_options_id, Some(3));
    assert_eq!(read.language_options_has_parser, Some(true));
    assert_eq!(read.rules, [("no-debugger".to_string(), "\"error\"".to_string())]);
}

#[test]
fn either_reading_can_refuse_an_override() {
    let public = || Ok(PublicOxlintOverride::default());
    assert_eq!(OxlintOverride::deserialize(Err("public"), Ok(internal())), Err("public"));
    assert_eq!(OxlintOverride::deserialize(Err("public"), Err("raw")), Err("public"));
    assert_eq!(OxlintOverride::deserialize(public(), Err("raw")), Err("raw"));
}

#[test]
fn a_default_override_sets_nothing() {
    let default = OxlintOverride::default();
    assert!(default.files.is_empty() && default.exclude_files.is_empty());
    assert!(default.env.is_none() && default.globals.is_none() && default.settings.is_none());
    assert!(default.plugins.is_none() && default.external_plugins.is_none());
    assert_eq!(default.language_options_id, None);
    assert_eq!(default.language_options_has_parser, None);
    assert!(default.rules.is_empty());
}

#[test]
fn an_empty_section_has_no_overrides() {
    assert!(OxlintOverrides::empty().is_empty());
    assert!(OxlintOverrides::default().is_empty());
    assert_eq!(OxlintOverrides::empty().into_iter().count(), 0);
}

#[test]
fn a_section_is_a_list_of_overrides() {
    let mut section = OxlintOverrides::from_vec(vec![override_of("a"), override_of("b")]);
    assert!(!section.is_empty());
    assert_eq!(section.len(), 2);
    section.push(override_of("c"));
    let read: Vec<&str> = (&section).into_iter().map(|entry| entry.files[0].as_str()).collect();
    assert_eq!(read, ["a", "b", "c"]);
    let owned: Vec<OxlintOverride> = section.into_iter().collect();
    assert_eq!(owned[2].files, ["c"]);
}
