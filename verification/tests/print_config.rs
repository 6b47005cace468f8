use oxc_svelte_backend::print_config::{add_plugin_names, find_missing_names, InvalidConfig};
use oxc_svelte_backend::run_print_config;
use serde_json::Value;

fn names(names: &[&str]) -> Vec<String> {
    names.iter().map(|name| name.to_string()).collect()
}

fn json(text: &str) -> Value {
    serde_json::from_str(text).unwrap()
}

fn with_names(config: &str, added: &[&str]) -> Value {
    let mut config = json(config);
    add_plugin_names(&mut config, &names(added));
    config
}

#[test]
fn prints_the_configuration_and_a_line_end() {
    let printed = run_print_config(r#"{"rules":{},"plugins":["b"]}"#, &names(&["c", "a"]));
    assert_eq!(
        printed.unwrap(),
        "{\n  \"plugins\": [\n    \"b\",\n    \"a\",\n    \"c\"\n  ],\n  \"rules\": {}\n}\n"
    );
}

#[test]
fn refuses_what_is_no_document() {
    assert_eq!(run_print_config("{", &names(&[])), Err(InvalidConfig));
    assert_eq!(run_print_config("", &names(&["a"])), Err(InvalidConfig));
}

#[test]
fn missing_plugins_are_added_in_order() {
    assert_eq!(
        with_names(r#"{ "plugins": ["m"] }"#, &["z", "a", "z", "B"]),
        json(r#"{ "plugins": ["m", "B", "a", "z"] }"#)
    );
}

#[test]
fn listed_plugins_are_not_added_again() {
    assert_eq!(
        with_names(r#"{ "plugins": ["b", 1, "a", null] }"#, &["a", "b", "c"]),
        json(r#"{ "plugins": ["b", 1, "a", null, "c"] }"#)
    );
}

#[test]
fn plugins_are_created_where_missing() {
    assert_eq!(with_names("{}", &["a"]), json(r#"{ "plugins": ["a"] }"#));
    assert_eq!(with_names("{}", &[]), json(r#"{ "plugins": [] }"#));
}

#[test]
fn plugins_that_are_no_list_are_left_alone() {
    for config in [r#"{ "plugins": null }"#, r#"{ "plugins": {} }"#, r#"{ "plugins": "a" }"#] {
        assert_eq!(with_names(config, &["a"]), json(config));
    }
}

#[test]
fn configurations_that_are_no_object_are_left_alone() {
    for config in ["[]", "null", "\"plugins\"", "3"] {
        assert_eq!(with_names(config, &["a"]), json(config));
    }
}

#[test]
fn adding_names_twice_adds_them_once() {
    let once = with_names(r#"{ "plugins": ["b"], "env": {} }"#, &["c", "a"]);
    let mut twice = once.clone();
    add_plugin_names(&mut twice, &names(&["c", "a"]));
    assert_eq!(twice, once);
}

#[test]
fn the_order_of_names_does_not_matter() {
    let config = r#"{ "plugins": ["b"] }"#;
    assert_eq!(with_names(config, &["a", "c", "b"]), with_names(config, &["c", "b", "a", "a"]));
}

#[test]
fn the_rest_of_the_configuration_is_kept() {
    let config = r#"{ "categories": { "correctness": "warn" }, "plugin": ["a"] }"#;
    let expected =
        r#"{ "categories": { "correctness": "warn" }, "plugin": ["a"], "plugins": ["a"] }"#;
    assert_eq!(with_names(config, &["a"]), json(expected));
}

#[test]
fn missing_names_are_those_without_an_entry() {
    let plugins = vec![json("\"b\""), json("[\"a\"]")];
    assert_eq!(find_missing_names(&plugins, &names(&["c", "b", "a"])), ["a", "c"]);
    assert!(find_missing_names(&plugins, &names(&["b", "b"])).is_empty());
}
