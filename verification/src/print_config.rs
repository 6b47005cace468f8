//! Printing the resolved lint configuration.

use vstd::pervasive::unreached;
use vstd::prelude::*;

use crate::json::{entry_or_insert, list_value, parse_json, print_json, text_value};
#[allow(unused_imports)]
use crate::json::{json_content, json_contents, parsed_json, pretty_json, Json};
use crate::order::insert_unique;
#[allow(unused_imports)]
use crate::order::Ordered;
#[allow(unused_imports)]
use crate::order::{
    law_ascending_list_is_unique, lemma_insert_keeps_ascending, lemma_place_in_ascending,
    strictly_ascending, views,
};
use crate::text::same_text;
#[allow(unused_imports)]
use crate::text::bytes_before;
#[allow(unused_imports)]
use vstd::utf8::encode_utf8;

verus! {

/// The configuration is no JSON document.
#[derive(Debug, Clone, Copy, PartialEq, Eq, Structural)]
pub struct InvalidConfig;

/// Whether `missing` lists, in ascending order and each once, the `names` that are
/// no text entry of `plugins`.
pub open spec fn is_missing(
    plugins: Seq<Json>,
    names: Seq<Seq<char>>,
    missing: Seq<Seq<char>>,
) -> bool {
    &&& strictly_ascending::<String>(missing)
    &&& forall|name: Seq<char>| #[trigger]
        missing.contains(name) <==> names.contains(name) && !plugins.contains(Json::Text(name))
}

/// The `names` that are no text entry of `plugins`, in ascending order and each
/// once.
pub open spec fn missing_names(plugins: Seq<Json>, names: Seq<Seq<char>>) -> Seq<Seq<char>> {
    choose|missing: Seq<Seq<char>>| is_missing(plugins, names, missing)
}

/// Names as text entries.
pub open spec fn text_entries(names: Seq<Seq<char>>) -> Seq<Json> {
    names.map_values(|name: Seq<char>| Json::Text(name))
}

/// The plugins with the missing names behind them.
pub open spec fn with_names(plugins: Seq<Json>, names: Seq<Seq<char>>) -> Seq<Json> {
    plugins + text_entries(missing_names(plugins, names))
}

/// What stands under `plugins`; a configuration without it has no plugins.
pub open spec fn plugins_entry(entries: Map<Seq<char>, Json>) -> Json {
    if entries.contains_key("plugins"@) {
        entries["plugins"@]
    } else {
        Json::List(Seq::empty())
    }
}

/// The configuration with `names` among its plugins. A configuration that is no
/// object is left alone, and so is a `plugins` entry that is no list.
pub open spec fn with_plugins(config: Json, names: Seq<Seq<char>>) -> Json {
    match config {
        Json::Object(entries) => Json::Object(
            entries.insert(
                "plugins"@,
                match plugins_entry(entries) {
                    Json::List(plugins) => Json::List(with_names(plugins, names)),
                    entry => entry,
                },
            ),
        ),
        _ => config,
    }
}

proof fn lemma_missing_names_exist(plugins: Seq<Json>, names: Seq<Seq<char>>) -> (missing: Seq<
    Seq<char>,
>)
    ensures
        is_missing(plugins, names, missing),
    decreases names.len(),
{
    if names.len() == 0 {
        Seq::empty()
    } else {
        let first = names.drop_last();
        let last = names.last();
        let before = lemma_missing_names_exist(plugins, first);
        assert(names =~= first.push(last));
        assert forall|name: Seq<char>| #[trigger] names.contains(name) <==> first.contains(name)
            || name == last by {
            if first.contains(name) {
                let i = choose|i: int| 0 <= i < first.len() && first[i] == name;
                assert(names[i] == name);
            }
            if name == last {
                assert(names[names.len() - 1] == name);
            }
            if names.contains(name) && name != last {
                let i = choose|i: int| 0 <= i < names.len() && names[i] == name;
                assert(first[i] == name);
            }
        }
        if plugins.contains(Json::Text(last)) || before.contains(last) {
            before
        } else {
            let at = lemma_place_in_ascending::<String>(before, last);
            lemma_insert_keeps_ascending::<String>(before, at, last);
            before.insert(at, last)
        }
    }
}

/// The missing names are the only list that [`is_missing`] allows.
pub proof fn law_missing_names_are_settled(
    plugins: Seq<Json>,
    names: Seq<Seq<char>>,
    missing: Seq<Seq<char>>,
)
    ensures
        is_missing(plugins, names, missing_names(plugins, names)),
        is_missing(plugins, names, missing) ==> missing == missing_names(plugins, names),
{
    let witness = lemma_missing_names_exist(plugins, names);
    assert(is_missing(plugins, names, witness));
    if is_missing(plugins, names, missing) {
        let settled = missing_names(plugins, names);
        assert forall|name: Seq<char>| #[trigger] missing.contains(name) <==> settled.contains(
            name,
        ) by {}
        law_ascending_list_is_unique::<String>(missing, settled);
    }
}

/// Every name ends up as a text entry of the plugins, behind the entries that
/// were there, which stay as they are.
pub proof fn law_all_names_are_listed(plugins: Seq<Json>, names: Seq<Seq<char>>, name: Seq<char>)
    requires
        names.contains(name),
    ensures
        with_names(plugins, names).contains(Json::Text(name)),
        plugins.is_prefix_of(with_names(plugins, names)),
{
    let missing = missing_names(plugins, names);
    law_missing_names_are_settled(plugins, names, missing);
    let after = with_names(plugins, names);
    if plugins.contains(Json::Text(name)) {
        let i = choose|i: int| 0 <= i < plugins.len() && plugins[i] == Json::Text(name);
        assert(after[i] == Json::Text(name));
    } else {
        assert(missing.contains(name));
        let i = choose|i: int| 0 <= i < missing.len() && missing[i] == name;
        assert(after[plugins.len() + i] == Json::Text(name));
    }
    assert(plugins =~= after.subrange(0, plugins.len() as int));
}

/// What is added is a name that was missing, and no name is added twice.
pub proof fn law_added_entries_are_missing_names(plugins: Seq<Json>, names: Seq<Seq<char>>, i: int)
    requires
        plugins.len() <= i < with_names(plugins, names).len(),
    ensures
        with_names(plugins, names)[i] is Text,
        names.contains(with_names(plugins, names)[i]->Text_0),
        !plugins.contains(with_names(plugins, names)[i]),
        forall|j: int|
            i < j < with_names(plugins, names).len() ==> #[trigger] with_names(plugins, names)[j]
                != with_names(plugins, names)[i],
{
    let missing = missing_names(plugins, names);
    law_missing_names_are_settled(plugins, names, missing);
    let after = with_names(plugins, names);
    let at = i - plugins.len();
    assert(after[i] == Json::Text(missing[at]));
    assert(missing.contains(missing[at]));
    assert forall|j: int| i < j < after.len() implies #[trigger] after[j] != after[i] by {
        assert(after[j] == Json::Text(missing[j - plugins.len()]));
        assert(<String as Ordered>::before(missing[at], missing[j - plugins.len()]));
        <String as Ordered>::before_is_irreflexive(missing[at]);
    }
}

/// The order in which the names come, and how often each comes, does not matter.
pub proof fn law_name_order_does_not_matter(
    config: Json,
    names: Seq<Seq<char>>,
    other_names: Seq<Seq<char>>,
)
    requires
        forall|name: Seq<char>| #[trigger] names.contains(name) <==> other_names.contains(name),
    ensures
        with_plugins(config, names) == with_plugins(config, other_names),
{
    if let Json::Object(entries) = config {
        if let Json::List(plugins) = plugins_entry(entries) {
            let missing = missing_names(plugins, names);
            law_missing_names_are_settled(plugins, names, missing);
            assert(is_missing(plugins, other_names, missing));
            law_missing_names_are_settled(plugins, other_names, missing);
        }
    }
}

/// Adding the same names once more adds nothing.
pub proof fn law_adding_names_is_idempotent(config: Json, names: Seq<Seq<char>>)
    ensures
        with_plugins(with_plugins(config, names), names) == with_plugins(config, names),
{
    if let Json::Object(entries) = config {
        let once = with_plugins(config, names)->Object_0;
        if let Json::List(plugins) = plugins_entry(entries) {
            let after = with_names(plugins, names);
            assert forall|name: Seq<char>| #[trigger] names.contains(name) implies after.contains(
                Json::Text(name),
            ) by {
                law_all_names_are_listed(plugins, names, name);
            }
            assert(is_missing(after, names, Seq::empty()));
            law_missing_names_are_settled(after, names, Seq::empty());
            assert(with_names(after, names) =~= after);
            assert(plugins_entry(once) == Json::List(after));
        }
        assert(once.insert("plugins"@, once["plugins"@]) =~= once);
    }
}

/// Nothing but the plugins of a configuration changes.
pub proof fn law_rest_of_config_is_kept(config: Json, names: Seq<Seq<char>>, key: Seq<char>)
    requires
        key != "plugins"@,
    ensures
        !(config is Object) ==> with_plugins(config, names) == config,
        config is Object ==> {
            let before = config->Object_0;
            let after = with_plugins(config, names)->Object_0;
            &&& with_plugins(config, names) is Object
            &&& after.contains_key(key) == before.contains_key(key)
            &&& before.contains_key(key) ==> after[key] == before[key]
        },
{
}

fn is_listed(plugins: &Vec<serde_json::Value>, name: &str) -> (r: bool)
    ensures
        r == json_contents(plugins@).contains(Json::Text(name@)),
{
    let ghost contents = json_contents(plugins@);
    let mut index: usize = 0;
    while index < plugins.len()
        invariant
            index <= plugins@.len(),
            contents == json_contents(plugins@),
            forall|j: int| 0 <= j < index ==> #[trigger] contents[j] != Json::Text(name@),
        decreases plugins@.len() - index,
    {
        if let Some(text) = plugins[index].as_str() {
            if same_text(text, name) {
                assert(contents[index as int] == Json::Text(name@));
                return true;
            }
        }
        assert(contents[index as int] == json_content(plugins@[index as int]));
        index = index + 1;
    }
    false
}

/// Finds the names that are no text entry of `plugins`.
pub fn find_missing_names(plugins: &Vec<serde_json::Value>, names: &Vec<String>) -> (r: Vec<String>)
    ensures
        views(r@) == missing_names(json_contents(plugins@), views(names@)),
{
    let ghost contents = json_contents(plugins@);
    let ghost all = views(names@);
    let mut missing: Vec<String> = Vec::new();
    assert(views(missing@) =~= Seq::empty());
    let mut index: usize = 0;
    while index < names.len()
        invariant
            index <= names@.len(),
            contents == json_contents(plugins@),
            all == views(names@),
            is_missing(contents, all.take(index as int), views(missing@)),
        decreases names@.len() - index,
    {
        let ghost before = views(missing@);
        let ghost done = all.take(index as int);
        let ghost name = names@[index as int]@;
        proof {
            let more = all.take(index + 1);
            assert(more =~= done.push(name));
            assert forall|n: Seq<char>| #[trigger] more.contains(n) <==> done.contains(n) || n
                == name by {
                if done.contains(n) {
                    let i = choose|i: int| 0 <= i < done.len() && done[i] == n;
                    assert(more[i] == n);
                }
                if n == name {
                    assert(more[index as int] == n);
                }
                if more.contains(n) && n != name {
                    let i = choose|i: int| 0 <= i < more.len() && more[i] == n;
                    assert(done[i] == n);
                }
            }
        }
        if !is_listed(plugins, names[index].as_str()) {
            insert_unique(&mut missing, names[index].clone());
        }
        index = index + 1;
    }
    proof {
        assert(all.take(index as int) =~= all);
        law_missing_names_are_settled(contents, all, views(missing@));
    }
    missing
}

/// Adds the names of plugins to the configuration.
pub fn add_plugin_names(config: &mut serde_json::Value, plugin_names: &Vec<String>)
    ensures
        json_content(*final(config)) == with_plugins(
            json_content(*old(config)),
            views(plugin_names@),
        ),
{
    if let Some(config_object) = config.as_object_mut() {
        let empty_list = list_value(Vec::new());
        assert(json_content(empty_list) == Json::List(Seq::empty())) by {
            assert(json_contents(Seq::empty()) =~= Seq::empty());
        }
        let plugins_value = entry_or_insert(config_object, "plugins", empty_list);
        if let Some(plugins) = plugins_value.as_array_mut() {
            let missing = find_missing_names(plugins, plugin_names);
            push_names(plugins, &missing);
        }
    }
}

fn push_names(plugins: &mut Vec<serde_json::Value>, names: &Vec<String>)
    ensures
        json_contents(final(plugins)@) == json_contents(old(plugins)@) + text_entries(
            views(names@),
        ),
{
    let ghost before = json_contents(plugins@);
    let ghost entries = text_entries(views(names@));
    let mut index: usize = 0;
    assert(before + entries.take(0) =~= before);
    while index < names.len()
        invariant
            index <= names@.len(),
            entries == text_entries(views(names@)),
            json_contents(plugins@) == before + entries.take(index as int),
        decreases names@.len() - index,
    {
        let value = text_value(names[index].clone());
        let ghost current = plugins@;
        plugins.push(value);
        proof {
            assert(json_contents(current.push(value)) =~= json_contents(current).push(
                json_content(value),
            ));
            assert(entries[index as int] == Json::Text(names@[index as int]@));
            assert(entries.take(index + 1) =~= entries.take(index as int).push(
                entries[index as int],
            ));
            assert(before + entries.take(index + 1) =~= (before + entries.take(index as int)).push(
                entries[index as int],
            ));
        }
        index = index + 1;
    }
    assert(entries.take(index as int) =~= entries);
}

/// Whether `r` is what is printed for a configuration that was read as `parsed`.
pub open spec fn is_printed(
    parsed: Option<Json>,
    names: Seq<Seq<char>>,
    r: Result<String, InvalidConfig>,
) -> bool {
    match parsed {
        Some(config) => r is Ok && r->Ok_0@ == pretty_json(with_plugins(config, names)) + "\n"@,
        None => r is Err,
    }
}

/// Whatever the configuration and the names are, what is printed is one line end
/// behind the document with the names in it; only what could not be read is refused.
pub proof fn law_printed_text_is_the_document_and_a_line_end(
    parsed: Option<Json>,
    names: Seq<Seq<char>>,
    r: Result<String, InvalidConfig>,
)
    requires
        is_printed(parsed, names, r),
    ensures
        r is Err <==> parsed is None,
        r is Ok ==> {
            &&& r->Ok_0@.len() > 0
            &&& r->Ok_0@.last() == '\n'
            &&& r->Ok_0@.drop_last() == pretty_json(with_plugins(parsed->0, names))
        },
{
    reveal_strlit("\n");
    if let Some(config) = parsed {
        assert(r->Ok_0@.drop_last() =~= pretty_json(with_plugins(config, names)));
    }
}

/// What is printed for a resolved configuration: the configuration with the names
/// of all loaded plugins in it, and a line end behind it. A configuration that is
/// no JSON document is refused.
pub fn run_print_config(config_file: &str, plugin_names: &Vec<String>) -> (r: Result<
    String,
    InvalidConfig,
>)
    ensures
        match parsed_json(config_file@) {
            Some(config) => r is Ok && r->Ok_0@ == pretty_json(
                with_plugins(config, views(plugin_names@)),
            ) + "\n"@,
            None => r is Err,
        },
        is_printed(parsed_json(config_file@), views(plugin_names@), r),
{
    let mut config_json = match parse_json(config_file) {
        Ok(config_json) => config_json,
        Err(_) => return Err(InvalidConfig),
    };
    add_plugin_names(&mut config_json, plugin_names);
    match print_json(&config_json) {
        Ok(mut text) => {
            text.append("\n");
            Ok(text)
        },
        Err(_) => unreached(),
    }
}

/// The missing names are the names without a text entry, ascending by their bytes.
pub proof fn law_missing_names_lack_an_entry(
    plugins: Seq<Json>,
    names: Seq<Seq<char>>,
    name: Seq<char>,
    i: int,
    j: int,
)
    ensures
        missing_names(plugins, names).contains(name) <==> names.contains(name)
            && !plugins.contains(Json::Text(name)),
        0 <= i < j < missing_names(plugins, names).len() ==> bytes_before(
            encode_utf8(missing_names(plugins, names)[i]),
            encode_utf8(missing_names(plugins, names)[j]),
        ),
{
    let missing = missing_names(plugins, names);
    law_missing_names_are_settled(plugins, names, missing);
    if 0 <= i < j < missing.len() {
        assert(<String as Ordered>::before(missing[i], missing[j]));
    }
}

/// In every configuration that is an object with a list of plugins or without plugins,
/// the plugins are afterwards a list that starts with the entries that were there and
/// has every one of the names, whatever those entries are.
pub proof fn law_configuration_lists_every_name(
    config: Json,
    names: Seq<Seq<char>>,
    name: Seq<char>,
    before: Seq<Json>,
)
    requires
        config is Object,
        if config->Object_0.contains_key("plugins"@) {
            config->Object_0["plugins"@] == Json::List(before)
        } else {
            before.len() == 0
        },
    ensures
        ({
            let after = with_plugins(config, names)->Object_0;
            let plugins = after["plugins"@]->List_0;
            &&& with_plugins(config, names) is Object
            &&& after.contains_key("plugins"@)
            &&& after["plugins"@] is List
            &&& plugins.len() >= before.len()
            &&& plugins.take(before.len() as int) == before
            &&& names.contains(name) ==> plugins.contains(Json::Text(name))
        }),
{
    let entries = config->Object_0;
    assert(before.len() == 0 ==> before =~= Seq::empty());
    assert(plugins_entry(entries) == Json::List(before));
    assert(with_names(before, names).take(before.len() as int) =~= before);
    if names.contains(name) {
        law_all_names_are_listed(before, names, name);
    }
}

/// What such a configuration gains is only names that were no entry, each once and
/// ascending by their bytes.
pub proof fn law_configuration_gains_only_missing_names(
    config: Json,
    names: Seq<Seq<char>>,
    before: Seq<Json>,
    i: int,
    j: int,
)
    requires
        config is Object,
        if config->Object_0.contains_key("plugins"@) {
            config->Object_0["plugins"@] == Json::List(before)
        } else {
            before.len() == 0
        },
        before.len() <= i,
        i < with_plugins(config, names)->Object_0["plugins"@]->List_0.len(),
    ensures
        ({
            let plugins = with_plugins(config, names)->Object_0["plugins"@]->List_0;
            &&& plugins[i] is Text
            &&& names.contains(plugins[i]->Text_0)
            &&& !before.contains(plugins[i])
            &&& i < j < plugins.len() ==> plugins[j] is Text && bytes_before(
                encode_utf8(plugins[i]->Text_0),
                encode_utf8(plugins[j]->Text_0),
            )
        }),
{
    let entries = config->Object_0;
    assert(before.len() == 0 ==> before =~= Seq::empty());
    assert(plugins_entry(entries) == Json::List(before));
    let missing = missing_names(before, names);
    let plugins = with_names(before, names);
    law_missing_names_are_settled(before, names, missing);
    assert(plugins[i] == Json::Text(missing[i - before.len()]));
    assert(missing.contains(missing[i - before.len()]));
    if i < j < plugins.len() {
        assert(plugins[j] == Json::Text(missing[j - before.len()]));
        assert(<String as Ordered>::before(
            missing[i - before.len()],
            missing[j - before.len()],
        ));
    }
}

/// A configuration whose plugins are no list stays as it is.
pub proof fn law_configuration_with_other_plugins_is_kept(config: Json, names: Seq<Seq<char>>)
    requires
        config is Object,
        config->Object_0.contains_key("plugins"@),
        !(config->Object_0["plugins"@] is List),
    ensures
        with_plugins(config, names) == config,
{
    let entries = config->Object_0;
    assert(entries.insert("plugins"@, entries["plugins"@]) =~= entries);
}

} // verus!
