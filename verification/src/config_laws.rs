//! What holds of the configuration of a profile, said of the lines that it is made of and of
//! the fields of the profile.
use vstd::prelude::*;

use crate::config::{
    common_entries, common_section, common_sections, default_lines, merged_config, merged_head,
    override_line, override_lines, provider_lines, provider_section, scalar_line, scalar_lines,
};
use crate::overrides::{
    begins_at, extends, is_named, is_replaced, is_written, listed, overlaid, replaces,
};
use crate::provider::{
    names_of, pair_map, profile_for, profile_of_file, profile_place, ProviderConfig,
    ProviderProfile,
};
use crate::text::{contains_text, decimal, stands_at, trimmed, CharClass};
use crate::toml_docs::{
    content_of, entry_at, holds_items, is_table_array, item_text, key_path, section_text,
    table_entries, value_text, Entries,
};
use crate::overrides::{item_set, items_set, leaves, member_leaves, Leaves};
use crate::toml_docs::{inner_item, item_with, table_with, value_item, Content};

verus! {

proof fn lemma_holds(before: Seq<char>, part: Seq<char>, after: Seq<char>, whole: Seq<char>)
    requires
        whole == before + part + after,
    ensures
        contains_text(whole, part),
{
    assert(whole.subrange(before.len() as int, before.len() as int + part.len()) =~= part);
    assert(stands_at(whole, part, before.len() as int));
}

proof fn lemma_part_of_part(whole: Seq<char>, part: Seq<char>, piece: Seq<char>)
    requires
        contains_text(whole, part),
        contains_text(part, piece),
    ensures
        contains_text(whole, piece),
{
    let i = choose|i: int| stands_at(whole, part, i);
    let j = choose|j: int| stands_at(part, piece, j);
    assert(whole.subrange(i + j, i + j + piece.len()) =~= whole.subrange(i, i + part.len()).subrange(
        j,
        j + piece.len(),
    ));
    assert(stands_at(whole, piece, i + j));
}

// ---------------------------------------------------------------------------
// The provider
// ---------------------------------------------------------------------------

/// A configuration begins with the provider and the model of the profile.
pub proof fn a_configuration_names_provider_and_model(profile: ProviderProfile, entries: Entries)
    ensures
        ({
            let p = profile.provider;
            ("model_provider = \""@ + p.model_provider@ + "\"\nmodel = \""@ + p.model@
                + "\"\n"@).is_prefix_of(merged_config(profile, entries))
        }),
{
    let p = profile.provider;
    let line = "model_provider = \""@ + p.model_provider@ + "\"\nmodel = \""@ + p.model@ + "\"\n"@;
    reveal_strlit("model_provider = \"");
    reveal_strlit("model_provider");
    reveal_strlit(" = \"");
    reveal_strlit("\"\nmodel = \"");
    reveal_strlit("model");
    reveal_strlit("\"\n");
    assert(provider_lines(p).take(line.len() as int) =~= line);
    assert(merged_config(profile, entries).subrange(0, line.len() as int) =~= line);
}

/// A configuration gives the sizes that the profile sets, and none that it does not set.
pub proof fn a_configuration_gives_the_sizes(p: ProviderConfig)
    ensures
        ({
            let named = "model_provider = \""@ + p.model_provider@ + "\"\nmodel = \""@ + p.model@
                + "\"\n"@;
            let window = match p.model_context_window {
                Some(n) => "model_context_window = "@ + decimal(n as nat) + "\n"@,
                None => Seq::<char>::empty(),
            };
            let limit = match p.model_auto_compact_token_limit {
                Some(n) => "model_auto_compact_token_limit = "@ + decimal(n as nat) + "\n"@,
                None => Seq::<char>::empty(),
            };
            provider_lines(p) == named + window + limit + "\n"@
        }),
{
    reveal_strlit("model_provider = \"");
    reveal_strlit("model_provider");
    reveal_strlit(" = \"");
    reveal_strlit(" = ");
    reveal_strlit("\"\nmodel = \"");
    reveal_strlit("model");
    reveal_strlit("\"\n");
    reveal_strlit("\n");
    reveal_strlit("model_context_window = ");
    reveal_strlit("model_context_window");
    reveal_strlit("model_auto_compact_token_limit = ");
    reveal_strlit("model_auto_compact_token_limit");
    let named = "model_provider = \""@ + p.model_provider@ + "\"\nmodel = \""@ + p.model@ + "\"\n"@;
    let window = match p.model_context_window {
        Some(n) => "model_context_window = "@ + decimal(n as nat) + "\n"@,
        None => Seq::<char>::empty(),
    };
    let limit = match p.model_auto_compact_token_limit {
        Some(n) => "model_auto_compact_token_limit = "@ + decimal(n as nat) + "\n"@,
        None => Seq::<char>::empty(),
    };
    assert(provider_lines(p) =~= named + window + limit + "\n"@);
}

/// The section that registers a provider, with everything that is set in it.
pub open spec fn section_with(
    id: Seq<char>,
    name: Seq<char>,
    api: Seq<char>,
    auth: Seq<char>,
    url: Seq<char>,
) -> Seq<char> {
    "[model_providers."@ + id + "]\n"@ + ("name = \""@ + name + "\"\n"@) + ("wire_api = \""@ + api
        + "\"\n"@) + ("requires_openai_auth = "@ + auth + "\n"@) + url + "\n"@
}

/// The configuration of a profile whose provider is not the native one registers the provider:
/// with its name, with the interface that the profile sets and the standard one only where it
/// sets none, with whether it takes the native login, which it does unless the profile says
/// otherwise, and with its address where there is one.
pub proof fn a_provider_is_registered_with_its_settings(
    profile: ProviderProfile,
    entries: Entries,
    api: Seq<char>,
    auth: Seq<char>,
    url: Seq<char>,
)
    requires
        profile.provider.model_provider@ != "openai"@,
        match profile.provider.wire_api {
            Some(set) => api == set@,
            None => api == "responses"@,
        },
        auth == (if profile.provider.requires_openai_auth == Some(false) {
            "false"@
        } else {
            "true"@
        }),
        match profile.provider.base_url {
            Some(set) => url == "base_url = \""@ + set@ + "\"\n"@,
            None => url == Seq::<char>::empty(),
        },
    ensures
        ({
            let p = profile.provider;
            contains_text(
                merged_config(profile, entries),
                "[model_providers]\n"@ + section_with(p.model_provider@, p.name@, api, auth, url),
            )
        }),
{
    let p = profile.provider;
    lemma_provider_section(p, api, auth, url);
    let made = "[model_providers]\n"@ + section_with(p.model_provider@, p.name@, api, auth, url);
    let overs = listed(profile.config_overrides);
    lemma_holds(
        merged_head(profile, entries),
        made,
        common_sections(entries, overs),
        merged_config(profile, entries),
    );
}

proof fn lemma_provider_section(p: ProviderConfig, api: Seq<char>, auth: Seq<char>, url: Seq<char>)
    requires
        p.model_provider@ != "openai"@,
        match p.wire_api {
            Some(set) => api == set@,
            None => api == "responses"@,
        },
        auth == (if p.requires_openai_auth == Some(false) {
            "false"@
        } else {
            "true"@
        }),
        match p.base_url {
            Some(set) => url == "base_url = \""@ + set@ + "\"\n"@,
            None => url == Seq::<char>::empty(),
        },
    ensures
        provider_section(p) == "[model_providers]\n"@ + section_with(
            p.model_provider@,
            p.name@,
            api,
            auth,
            url,
        ),
{
    assert("name"@ + " = \""@ =~= "name = \""@) by {
        reveal_strlit("name");
        reveal_strlit(" = \"");
        reveal_strlit("name = \"");
    }
    assert("wire_api"@ + " = \""@ =~= "wire_api = \""@) by {
        reveal_strlit("wire_api");
        reveal_strlit(" = \"");
        reveal_strlit("wire_api = \"");
    }
    assert("base_url"@ + " = \""@ =~= "base_url = \""@) by {
        reveal_strlit("base_url");
        reveal_strlit(" = \"");
        reveal_strlit("base_url = \"");
    }
    let top = "[model_providers]\n"@;
    let head = "[model_providers."@ + p.model_provider@ + "]\n"@;
    let lines = head + ("name = \""@ + p.name@ + "\"\n"@) + ("wire_api = \""@ + api + "\"\n"@);
    let ask = "requires_openai_auth = "@;
    assert(provider_section(p) == (top + "[model_providers."@ + p.model_provider@ + "]\n"@ + (
    "name = \""@ + p.name@ + "\"\n"@) + ("wire_api = \""@ + api + "\"\n"@)) + ask + auth + "\n"@ + url
        + "\n"@);
    lemma_moved(top, "[model_providers."@, p.model_provider@);
    lemma_moved(top, "[model_providers."@ + p.model_provider@, "]\n"@);
    lemma_moved(top, head, "name = \""@ + p.name@ + "\"\n"@);
    lemma_moved(
        top,
        head + ("name = \""@ + p.name@ + "\"\n"@),
        "wire_api = \""@ + api + "\"\n"@,
    );
    assert(provider_section(p) == (top + lines) + ask + auth + "\n"@ + url + "\n"@);
    lemma_moved(top + lines, ask, auth);
    lemma_moved(top + lines, ask + auth, "\n"@);
    lemma_moved(top, lines, ask + auth + "\n"@);
    lemma_moved(top, lines + (ask + auth + "\n"@), url);
    lemma_moved(top, lines + (ask + auth + "\n"@) + url, "\n"@);
}

proof fn lemma_moved(a: Seq<char>, b: Seq<char>, c: Seq<char>)
    ensures
        a + b + c == a + (b + c),
{
    assert(a + b + c =~= a + (b + c));
}

/// Two profiles that differ in the interface alone get different configurations.
pub proof fn the_interface_tells_configurations_apart(
    a: ProviderProfile,
    b: ProviderProfile,
    entries: Entries,
)
    requires
        a.provider.model_provider@ != "openai"@,
        a.provider.wire_api is Some,
        b.provider.wire_api is Some,
        a.provider.wire_api->0@ != b.provider.wire_api->0@,
        b == (ProviderProfile {
            provider: ProviderConfig { wire_api: b.provider.wire_api, ..a.provider },
            ..a
        }),
    ensures
        merged_config(a, entries) != merged_config(b, entries),
{
    let p = a.provider;
    let q = b.provider;
    let api_a = p.wire_api->0@;
    let api_b = q.wire_api->0@;
    let auth = if p.requires_openai_auth == Some(false) {
        "false"@
    } else {
        "true"@
    };
    let url = match p.base_url {
        Some(set) => "base_url = \""@ + set@ + "\"\n"@,
        None => Seq::<char>::empty(),
    };
    lemma_provider_section(p, api_a, auth, url);
    lemma_provider_section(q, api_b, auth, url);
    let overs = listed(a.config_overrides);
    let top = "[model_providers]\n"@ + ("[model_providers."@ + p.model_provider@ + "]\n"@ + (
    "name = \""@ + p.name@ + "\"\n"@));
    let rest = ("requires_openai_auth = "@ + auth + "\n"@) + url + "\n"@;
    lemma_section_in_parts(p.model_provider@, p.name@, api_a, auth, url);
    lemma_section_in_parts(p.model_provider@, p.name@, api_b, auth, url);
    assert(merged_head(b, entries) == merged_head(a, entries));
    let head = merged_head(a, entries);
    let tail = common_sections(entries, overs);
    assert(merged_config(a, entries) == head + (top + ("wire_api = \""@ + api_a + "\"\n"@) + rest)
        + tail);
    assert(merged_config(b, entries) == head + (top + ("wire_api = \""@ + api_b + "\"\n"@) + rest)
        + tail);
    lemma_value_tells_apart(head, top, "wire_api = \""@, api_a, api_b, "\"\n"@, rest, tail);
}

proof fn lemma_value_tells_apart(
    head: Seq<char>,
    top: Seq<char>,
    before: Seq<char>,
    a: Seq<char>,
    b: Seq<char>,
    after: Seq<char>,
    rest: Seq<char>,
    tail: Seq<char>,
)
    requires
        a != b,
    ensures
        head + (top + (before + a + after) + rest) + tail != head + (top + (before + b + after)
            + rest) + tail,
{
    let x = head + (top + (before + a + after) + rest) + tail;
    let y = head + (top + (before + b + after) + rest) + tail;
    if x == y {
        let n = head.len() + top.len() + before.len();
        assert(x.len() == y.len());
        assert(a.len() == b.len());
        assert forall|i: int| 0 <= i < a.len() implies a[i] == b[i] by {
            assert(x[n + i] == a[i]);
            assert(y[n + i] == b[i]);
        }
        assert(a =~= b);
    }
}

proof fn lemma_section_in_parts(
    id: Seq<char>,
    name: Seq<char>,
    api: Seq<char>,
    auth: Seq<char>,
    url: Seq<char>,
)
    ensures
        "[model_providers]\n"@ + section_with(id, name, api, auth, url) == "[model_providers]\n"@ + (
        "[model_providers."@ + id + "]\n"@ + ("name = \""@ + name + "\"\n"@)) + ("wire_api = \""@ + api
            + "\"\n"@) + (("requires_openai_auth = "@ + auth + "\n"@) + url + "\n"@),
{
    let top = "[model_providers]\n"@;
    let head = "[model_providers."@ + id + "]\n"@ + ("name = \""@ + name + "\"\n"@);
    let line = "wire_api = \""@ + api + "\"\n"@;
    let ask = "requires_openai_auth = "@ + auth + "\n"@;
    lemma_moved(head + line, ask, url);
    lemma_moved(head + line, ask + url, "\n"@);
    lemma_moved(top, head + line, ask + url + "\n"@);
    lemma_moved(top, head, line);
}

/// The native provider is registered nowhere: what follows the top level are the common
/// sections.
pub proof fn the_native_provider_is_not_registered(profile: ProviderProfile, entries: Entries)
    requires
        profile.provider.model_provider@ == "openai"@,
    ensures
        merged_config(profile, entries) == merged_head(profile, entries) + common_sections(
            entries,
            listed(profile.config_overrides),
        ),
{
    assert(merged_head(profile, entries) + Seq::<char>::empty() =~= merged_head(profile, entries));
}

// ---------------------------------------------------------------------------
// What is common
// ---------------------------------------------------------------------------

/// Whether an item is neither a table nor an array of tables.
pub open spec fn is_value(item: toml_edit::Item) -> bool {
    table_entries(item) is None && !is_table_array(item)
}

proof fn lemma_no_override(entry: (Seq<char>, toml_edit::Item))
    ensures
        !is_replaced(entry, Seq::empty()),
        overlaid(entry, Seq::empty()) == entry.1,
{
}

/// A common value is written with its key before all sections, unless it is one of the four
/// that the profile gives.
pub proof fn common_values_are_written(
    profile: ProviderProfile,
    entries: Entries,
    i: int,
)
    requires
        profile.config_overrides is None,
        0 <= i < entries.len(),
        is_value(entries[i].1),
        entries[i].0 != "model_provider"@,
        entries[i].0 != "model"@,
        entries[i].0 != "model_context_window"@,
        entries[i].0 != "model_auto_compact_token_limit"@,
    ensures
        contains_text(
            merged_head(profile, entries),
            entries[i].0 + " = "@ + trimmed(item_text(entries[i].1), CharClass::Space) + "\n"@,
        ),
{
    let none = Seq::<(String, toml::Value)>::empty();
    let line = entries[i].0 + " = "@ + trimmed(item_text(entries[i].1), CharClass::Space) + "\n"@;
    assert(listed(profile.config_overrides) == none);
    lemma_no_override(entries[i]);
    assert(scalar_line(entries[i], none) == line);
    lemma_scalar_line_is_there(entries, none, i);
    let lines = scalar_lines(entries, none);
    let after = default_lines(profile.provider, entries, none) + "\n"@
        + crate::config::override_block(entries, none);
    assert(merged_head(profile, entries) =~= provider_lines(profile.provider) + lines + after);
    lemma_holds(provider_lines(profile.provider), lines, after, merged_head(profile, entries));
    lemma_part_of_part(merged_head(profile, entries), lines, line);
}

proof fn lemma_scalar_line_is_there(entries: Entries, overs: Seq<(String, toml::Value)>, i: int)
    requires
        0 <= i < entries.len(),
    ensures
        contains_text(scalar_lines(entries, overs), scalar_line(entries[i], overs)),
    decreases entries.len(),
{
    let before = scalar_lines(entries.drop_last(), overs);
    let last = scalar_line(entries.last(), overs);
    let none = Seq::<char>::empty();
    if i == entries.len() - 1 {
        assert(scalar_lines(entries, overs) =~= before + last + none);
        lemma_holds(before, last, none, scalar_lines(entries, overs));
    } else {
        lemma_scalar_line_is_there(entries.drop_last(), overs, i);
        assert(entries.drop_last()[i] == entries[i]);
        assert(scalar_lines(entries, overs) =~= none + before + last);
        lemma_holds(none, before, last, scalar_lines(entries, overs));
        lemma_part_of_part(scalar_lines(entries, overs), before, scalar_line(entries[i], overs));
    }
}

/// A common section is written behind the top level, unless it registers providers.
pub proof fn common_sections_are_written(
    profile: ProviderProfile,
    entries: Entries,
    i: int,
)
    requires
        profile.config_overrides is None,
        0 <= i < entries.len(),
        !is_value(entries[i].1),
        entries[i].0 != "model_providers"@,
    ensures
        contains_text(
            common_sections(entries, Seq::empty()),
            section_text(entries[i].0, entries[i].1),
        ),
        contains_text(merged_config(profile, entries), section_text(entries[i].0, entries[i].1)),
{
    let none = Seq::<(String, toml::Value)>::empty();
    assert(listed(profile.config_overrides) == none);
    lemma_no_override(entries[i]);
    assert(common_section(entries[i], none) == section_text(entries[i].0, entries[i].1));
    lemma_section_is_there(entries, none, i);
    let head = merged_head(profile, entries) + provider_section(profile.provider);
    let sections = common_sections(entries, none);
    let empty = Seq::<char>::empty();
    assert(merged_config(profile, entries) =~= head + sections + empty);
    lemma_holds(head, sections, empty, merged_config(profile, entries));
    lemma_part_of_part(
        merged_config(profile, entries),
        sections,
        section_text(entries[i].0, entries[i].1),
    );
}

proof fn lemma_section_is_there(entries: Entries, overs: Seq<(String, toml::Value)>, i: int)
    requires
        0 <= i < entries.len(),
    ensures
        contains_text(common_sections(entries, overs), common_section(entries[i], overs)),
    decreases entries.len(),
{
    let before = common_sections(entries.drop_last(), overs);
    let last = common_section(entries.last(), overs);
    let none = Seq::<char>::empty();
    if i == entries.len() - 1 {
        assert(common_sections(entries, overs) =~= before + last + none);
        lemma_holds(before, last, none, common_sections(entries, overs));
    } else {
        lemma_section_is_there(entries.drop_last(), overs, i);
        assert(entries.drop_last()[i] == entries[i]);
        assert(common_sections(entries, overs) =~= none + before + last);
        lemma_holds(none, before, last, common_sections(entries, overs));
        lemma_part_of_part(common_sections(entries, overs), before, common_section(entries[i], overs));
    }
}

/// What the common configuration says of the provider, of the model or of its sizes makes no
/// difference, and neither does a section that registers providers.
pub proof fn provider_settings_of_the_common_configuration_are_left_out(
    profile: ProviderProfile,
    entries: Entries,
    key: Seq<char>,
    item: toml_edit::Item,
)
    requires
        profile.config_overrides is None,
        (is_value(item) && (key == "model_provider"@ || key == "model"@ || key
            == "model_context_window"@ || key == "model_auto_compact_token_limit"@)) || (!is_value(
            item,
        ) && key == "model_providers"@),
    ensures
        merged_config(profile, entries.push((key, item))) == merged_config(profile, entries),
{
    reveal_strlit("model_provider");
    reveal_strlit("model");
    reveal_strlit("model_context_window");
    reveal_strlit("model_auto_compact_token_limit");
    reveal_strlit("model_providers");
    reveal_strlit("model_reasoning_effort");
    reveal_strlit("disable_response_storage");
    assert("model_provider"@.len() == 14);
    assert("model"@.len() == 5);
    assert("model_context_window"@.len() == 20);
    assert("model_auto_compact_token_limit"@.len() == 30);
    assert("model_providers"@.len() == 15);
    assert("model_reasoning_effort"@.len() == 22);
    assert("disable_response_storage"@.len() == 24);
    let none = Seq::<(String, toml::Value)>::empty();
    let more = entries.push((key, item));
    assert(listed(profile.config_overrides) == none);
    assert(more.drop_last() =~= entries);
    assert(more.last() == (key, item));
    let empty = Seq::<char>::empty();
    assert(scalar_lines(more, none) =~= scalar_lines(entries, none));
    assert(common_sections(more, none) =~= common_sections(entries, none));
    lemma_entry_at_push(entries, (key, item), "model_reasoning_effort"@);
    lemma_entry_at_push(entries, (key, item), "disable_response_storage"@);
    assert(crate::config::override_block(more, none) =~= crate::config::override_block(
        entries,
        none,
    )) by {
        reveal_with_fuel(override_lines, 1);
    }
}

proof fn lemma_entry_at_push(entries: Entries, entry: (Seq<char>, toml_edit::Item), key: Seq<char>)
    requires
        entry.0 != key,
    ensures
        entry_at(entries.push(entry), key) == entry_at(entries, key),
    decreases entries.len(),
{
    reveal_with_fuel(entry_at, 2);
    let more = entries.push(entry);
    if entries.len() > 0 {
        lemma_entry_at_push(entries.drop_first(), entry, key);
        assert(more.drop_first() =~= entries.drop_first().push(entry));
        assert(more[0] == entries[0]);
    } else {
        assert(more.drop_first() =~= entries);
    }
}

/// An extraction drops the six keys of a provider and keeps every other one, with its item.
pub proof fn six_keys_are_dropped(entries: Entries, key: Seq<char>)
    ensures
        key == "model_provider"@ || key == "model"@ || key == "model_context_window"@ || key
            == "model_auto_compact_token_limit"@ || key == "model_providers"@ || key
            == "model_catalog_json"@ ==> entry_at(common_entries(entries), key) is None,
        !(key == "model_provider"@ || key == "model"@ || key == "model_context_window"@ || key
            == "model_auto_compact_token_limit"@ || key == "model_providers"@ || key
            == "model_catalog_json"@) ==> entry_at(common_entries(entries), key) == entry_at(
            entries,
            key,
        ),
{
    crate::config::an_extraction_is_final(entries, key);
}

// ---------------------------------------------------------------------------
// Defaults and overrides
// ---------------------------------------------------------------------------

/// The reasoning effort of a profile is written where neither the common configuration nor an
/// override sets one, and makes no difference otherwise; the same holds of its wish that
/// responses are not stored.
pub proof fn the_common_configuration_comes_before_defaults(
    p: ProviderConfig,
    entries: Entries,
    overs: Seq<(String, toml::Value)>,
)
    ensures
        ({
            let asks_effort = p.model_reasoning_effort is Some && entry_at(
                entries,
                "model_reasoning_effort"@,
            ) is None && forall|i: int|
                0 <= i < overs.len() ==> !begins_at(
                    #[trigger] overs[i],
                    "model_reasoning_effort"@,
                );
            let asks_storage = p.disable_response_storage == Some(true) && entry_at(
                entries,
                "disable_response_storage"@,
            ) is None && forall|i: int|
                0 <= i < overs.len() ==> !begins_at(
                    #[trigger] overs[i],
                    "disable_response_storage"@,
                );
            let effort = "model_reasoning_effort = \""@ + p.model_reasoning_effort->0@ + "\"\n"@;
            let storage = "disable_response_storage = true\n"@;
            &&& asks_effort && asks_storage ==> default_lines(p, entries, overs) == effort + storage
            &&& asks_effort && !asks_storage ==> default_lines(p, entries, overs) == effort
            &&& !asks_effort && asks_storage ==> default_lines(p, entries, overs) == storage
            &&& !asks_effort && !asks_storage ==> default_lines(p, entries, overs).len() == 0
        }),
{
    reveal_strlit("model_reasoning_effort = \"");
    reveal_strlit("model_reasoning_effort");
    reveal_strlit(" = \"");
    let none = Seq::<char>::empty();
    let effort = "model_reasoning_effort = \""@ + p.model_reasoning_effort->0@ + "\"\n"@;
    let old = "model_reasoning_effort"@ + " = \""@ + p.model_reasoning_effort->0@ + "\"\n"@;
    let storage = "disable_response_storage = true\n"@;
    assert(effort =~= old);
    assert(effort + none =~= effort);
    assert(none + storage =~= storage);
    assert(none + none =~= none);
}

/// An override of a plain key that stands for a value is written as a line of the top level,
/// and takes the place of a common value of the same key.
pub proof fn an_override_takes_the_place_of_a_common_value(
    profile: ProviderProfile,
    entries: Entries,
    key: String,
    value: toml::Value,
    text: Seq<char>,
    item: toml_edit::Item,
)
    requires
        profile.config_overrides is Some,
        profile.config_overrides->0@ == seq![(key, value)],
        key@.len() > 0,
        key@[0] != '[',
        key_path(key@) == Some(seq![key@]),
        content_of(value) is Leaf,
        value_text(value) == Some(text),
        is_value(item),
        !holds_items(item),
        forall|i: int| 0 <= i < entries.len() ==> (#[trigger] entries[i]).0 != key@,
    ensures
        contains_text(merged_head(profile, entries), key@ + " = "@ + text + "\n"@),
        merged_config(profile, entries.push((key@, item))) == merged_config(profile, entries),
{
    reveal_strlit("[");
    let overs = seq![(key, value)];
    let over = (key, value);
    assert(listed(profile.config_overrides) == overs);
    assert(overs[0] == over);
    assert(crate::overrides::setting_path(key@)[0] == key@);
    assert(crate::overrides::is_setting(key@)) by {
        assert("["@[0] == '[');
    }
    assert(begins_at(over, key@));
    let more = entries.push((key@, item));
    let entry = (key@, item);
    assert(!extends(over, entry));
    assert(replaces(overs[0], entry));
    assert(is_replaced(entry, overs));
    assert(!is_written(entry, overs));
    assert(more.drop_last() =~= entries);
    assert(more.last() == entry);
    assert(scalar_lines(more, overs) =~= scalar_lines(entries, overs));
    assert(common_sections(more, overs) =~= common_sections(entries, overs));
    assert(!crate::overrides::is_absorbed(over, entries, overs)) by {
        assert forall|i: int| 0 <= i < entries.len() implies !(is_written(
            #[trigger] entries[i],
            overs,
        ) && extends(over, entries[i])) by {
            assert(entries[i].0 != key@);
        }
    }
    assert(!crate::overrides::is_absorbed(over, more, overs)) by {
        assert forall|i: int| 0 <= i < more.len() implies !(is_written(#[trigger] more[i], overs)
            && extends(over, more[i])) by {
            if i < entries.len() {
                assert(more[i] == entries[i]);
            }
        }
    }
    assert(overs.drop_last() =~= Seq::<(String, toml::Value)>::empty());
    let line = key@ + " = "@ + text + "\n"@;
    reveal_with_fuel(override_lines, 2);
    assert(override_line(over, entries, overs) == line);
    assert(override_line(over, more, overs) == line);
    assert(override_lines(overs, entries, overs) =~= line);
    assert(override_lines(overs, more, overs) =~= line);
    assert(crate::config::has_line(overs[0], entries, overs));
    assert(crate::config::has_line(overs[0], more, overs));
    assert(crate::config::override_block(more, overs) == crate::config::override_block(
        entries,
        overs,
    ));
    lemma_defaults(profile.provider, entries, entry, overs);
    let before = provider_lines(profile.provider) + scalar_lines(entries, overs) + default_lines(
        profile.provider,
        entries,
        overs,
    ) + "\n"@;
    assert(merged_head(profile, entries) =~= before + line + "\n"@);
    lemma_holds(before, line, "\n"@, merged_head(profile, entries));
}

proof fn lemma_defaults(
    p: ProviderConfig,
    entries: Entries,
    entry: (Seq<char>, toml_edit::Item),
    overs: Seq<(String, toml::Value)>,
)
    requires
        is_named(entry.0, overs) || (exists|i: int|
            0 <= i < overs.len() && begins_at(#[trigger] overs[i], entry.0)),
    ensures
        default_lines(p, entries.push(entry), overs) == default_lines(p, entries, overs),
{
    if entry.0 != "model_reasoning_effort"@ {
        lemma_entry_at_push(entries, entry, "model_reasoning_effort"@);
    }
    if entry.0 != "disable_response_storage"@ {
        lemma_entry_at_push(entries, entry, "disable_response_storage"@);
    }
}

// ---------------------------------------------------------------------------
// Profiles
// ---------------------------------------------------------------------------

/// The profile for a provider is the first one that names it.
pub proof fn the_first_profile_of_a_provider_is_found(
    profiles: Seq<(String, ProviderProfile)>,
    provider: Seq<char>,
)
    ensures
        profile_for(profiles, provider) matches Some(i) ==> 0 <= i < profiles.len()
            && profiles[i].1.provider.model_provider@ == provider && forall|j: int|
            0 <= j < i ==> (#[trigger] profiles[j]).1.provider.model_provider@ != provider,
        profile_for(profiles, provider) is None ==> forall|j: int|
            0 <= j < profiles.len() ==> (#[trigger] profiles[j]).1.provider.model_provider@
                != provider,
    decreases profiles.len(),
{
    if profiles.len() > 0 {
        let fewer = profiles.drop_last();
        the_first_profile_of_a_provider_is_found(fewer, provider);
        assert forall|j: int| 0 <= j < fewer.len() implies fewer[j] == profiles[j] by {}
        match profile_for(fewer, provider) {
            Some(i) => {
                assert forall|j: int| 0 <= j < i implies (
                #[trigger] profiles[j]).1.provider.model_provider@ != provider by {
                    assert(fewer[j] == profiles[j]);
                }
            },
            None => {
                assert forall|j: int| 0 <= j < fewer.len() implies (
                #[trigger] profiles[j]).1.provider.model_provider@ != provider by {
                    assert(fewer[j] == profiles[j]);
                }
            },
        }
    }
}

/// A file that is named after a profile and ends with `.toml` holds that profile, and a file
/// with another ending holds none.
pub proof fn profile_files_end_so(name: Seq<char>, ending: Seq<char>)
    requires
        name.len() > 0,
        !ending.contains('.'),
    ensures
        profile_of_file(name + ".toml"@) == Some(name),
        ending != "toml"@ ==> profile_of_file(name + seq!['.'] + ending) is None,
{
    reveal_strlit(".toml");
    reveal_strlit("toml");
    reveal_strlit("..");
    let toml = seq!['t', 'o', 'm', 'l'];
    assert("toml"@ =~= toml);
    assert(name + ".toml"@ =~= name + seq!['.'] + toml);
    lemma_last_dot(name, toml);
    lemma_last_dot(name, ending);
    let file = name + seq!['.'] + toml;
    assert(file.skip(name.len() as int + 1) =~= toml);
    assert(file.take(name.len() as int) =~= name);
    assert(file.len() > 2);
    let other = name + seq!['.'] + ending;
    assert(other.skip(name.len() as int + 1) =~= ending);
}

proof fn lemma_last_dot(name: Seq<char>, ending: Seq<char>)
    requires
        !ending.contains('.'),
    ensures
        crate::text::last_index(name + seq!['.'] + ending, '.') == Some(name.len()),
    decreases ending.len(),
{
    let s = name + seq!['.'] + ending;
    if ending.len() > 0 {
        let fewer = ending.drop_last();
        assert(ending.contains(ending[ending.len() - 1]));
        assert(s.last() == ending[ending.len() - 1]);
        assert forall|i: int| 0 <= i < fewer.len() implies fewer[i] != '.' by {
            assert(ending.contains(ending[i]));
        }
        lemma_last_dot(name, fewer);
        assert(s.drop_last() =~= name + seq!['.'] + fewer);
    } else {
        assert(s.last() == '.');
    }
}

/// A profile is kept in a file named after it, in the directory of the profiles.
pub proof fn profiles_are_kept_in_their_directory(dir: Seq<char>, name: Seq<char>)
    requires
        dir.len() > 0,
        dir.last() != '/',
        name.len() > 0,
        name[0] != '/',
    ensures
        profile_place(dir, name) == dir + "/providers/"@ + name + ".toml"@,
{
    reveal_strlit("providers");
    reveal_strlit("/providers/");
    reveal_strlit(".toml");
    assert((name + ".toml"@)[0] == name[0]);
    let place = dir.push('/') + "providers"@;
    assert(crate::provider::providers_place(dir) == place);
    assert(place.last() == 's');
    assert(profile_place(dir, name) =~= dir + "/providers/"@ + name + ".toml"@);
}

/// Profiles are listed by the names that they have.
pub proof fn profiles_are_listed_by_name(
    profiles: Seq<(String, ProviderProfile)>,
    name: String,
    profile: ProviderProfile,
)
    ensures
        names_of(profiles.push((name, profile))) == names_of(profiles).push(name@),
{
    assert(names_of(profiles.push((name, profile))) =~= names_of(profiles).push(name@));
}

/// The last value of a name counts.
pub proof fn the_last_value_of_a_name_counts(
    pairs: Seq<(String, String)>,
    name: String,
    value: String,
)
    ensures
        pair_map(Seq::empty()) == Map::<Seq<char>, Seq<char>>::empty(),
        pair_map(pairs.push((name, value))) == pair_map(pairs).insert(name@, value@),
{
    assert(pairs.push((name, value)).drop_last() =~= pairs);
    assert(pairs.push((name, value)).last() == (name, value));
}

// ---------------------------------------------------------------------------
// Settings inside tables
// ---------------------------------------------------------------------------

/// An override changes a table of its key from the inside where it names something in it, or is
/// a table itself; any other override of that key takes the place of the table.
pub proof fn an_override_reaches_into_a_table(
    over: (String, toml::Value),
    key: Seq<char>,
    item: toml_edit::Item,
    path: Seq<Seq<char>>,
)
    requires
        over.0@.len() > 0,
        over.0@[0] != '[',
        key_path(over.0@) == Some(path),
        path.len() > 0,
    ensures
        path[0] != key ==> !extends(over, (key, item)) && !replaces(over, (key, item)),
        path[0] == key && holds_items(item) && path.len() > 1 ==> extends(over, (key, item)),
        path[0] == key && holds_items(item) && content_of(over.1) is Table ==> extends(
            over,
            (key, item),
        ),
        path[0] == key && !holds_items(item) ==> replaces(over, (key, item)),
        path[0] == key && path.len() == 1 && content_of(over.1) is Leaf ==> replaces(
            over,
            (key, item),
        ),
{
    reveal_strlit("[");
    assert("["@[0] == '[');
    assert(crate::overrides::is_setting(over.0@));
    assert(crate::overrides::setting_path(over.0@) == path);
}

/// Setting an item at a path sets it under the last key of the path: inside the tables that are
/// there, and inside new ones where something else or nothing is there.
pub proof fn items_are_set_along_their_path(
    item: toml_edit::Item,
    key: Seq<char>,
    next: Seq<char>,
    value: toml_edit::Item,
)
    ensures
        item_set(item, seq![key], value) == item_with(item, key, value),
        inner_item(item, key) is Some && holds_items(inner_item(item, key)->0) ==> item_set(
            item,
            seq![key, next],
            value,
        ) == item_with(item, key, item_with(inner_item(item, key)->0, next, value)),
        inner_item(item, key) is None || !holds_items(inner_item(item, key)->0) ==> item_set(
            item,
            seq![key, next],
            value,
        ) == item_with(item, key, table_with(next, value)),
{
    reveal_with_fuel(item_set, 3);
    reveal_with_fuel(crate::overrides::nested, 3);
    assert(seq![key].drop_first() =~= Seq::<Seq<char>>::empty());
    assert(seq![key, next].drop_first() =~= seq![next]);
    assert(seq![next].drop_first() =~= Seq::<Seq<char>>::empty());
}

/// A value is set where it stands; a table is set member by member, each under its key.
pub proof fn tables_are_set_member_by_member(
    path: Seq<Seq<char>>,
    value: toml::Value,
    members: Seq<(Seq<char>, Content)>,
    key: Seq<char>,
    content: Content,
)
    ensures
        leaves(path, Content::Leaf(value)) == seq![(path, value_item(value))],
        leaves(path, Content::Table(Seq::empty())).len() == 0,
        leaves(path, Content::Table(members.push((key, content)))) == leaves(
            path,
            Content::Table(members),
        ) + leaves(path.push(key), content),
{
    let more = members.push((key, content));
    lemma_same_leaves(path, members, more, members.len());
    assert(more[members.len() as int] == (key, content));
}

proof fn lemma_same_leaves(
    path: Seq<Seq<char>>,
    a: Seq<(Seq<char>, Content)>,
    b: Seq<(Seq<char>, Content)>,
    n: nat,
)
    requires
        n <= a.len() <= b.len(),
        forall|i: int| 0 <= i < a.len() ==> a[i] == #[trigger] b[i],
    ensures
        member_leaves(path, a, n) == member_leaves(path, b, n),
    decreases n,
{
    if n > 0 {
        lemma_same_leaves(path, a, b, (n - 1) as nat);
        assert(a[n - 1] == b[n - 1]);
    }
}

/// Overrides are laid over a table in their order, so that the last one counts.
pub proof fn overrides_are_laid_over_in_order(
    entry: (Seq<char>, toml_edit::Item),
    overs: Seq<(String, toml::Value)>,
    over: (String, toml::Value),
    list: Leaves,
    path: Seq<Seq<char>>,
    value: toml_edit::Item,
)
    ensures
        overlaid(entry, Seq::empty()) == entry.1,
        extends(over, entry) ==> overlaid(entry, overs.push(over)) == items_set(
            overlaid(entry, overs),
            leaves(crate::overrides::setting_path(over.0@).drop_first(), content_of(over.1)),
        ),
        !extends(over, entry) ==> overlaid(entry, overs.push(over)) == overlaid(entry, overs),
        items_set(entry.1, Seq::empty()) == entry.1,
        items_set(entry.1, list.push((path, Some(value)))) == item_set(
            items_set(entry.1, list),
            path,
            value,
        ),
{
    assert(overs.push(over).drop_last() =~= overs);
    assert(overs.push(over).last() == over);
    let more = list.push((path, Some(value)));
    assert(more.drop_last() =~= list);
    assert(more.last() == (path, Some(value)));
}

/// An override for a section writes nothing at the top level, and neither does one that changes
/// a common table from the inside: where all are such, no empty line is written for them either.
pub proof fn other_overrides_write_no_line(
    profile: ProviderProfile,
    entries: Entries,
    over: (String, toml::Value),
    i: int,
)
    requires
        profile.config_overrides is Some,
        profile.config_overrides->0@ == seq![over],
        (over.0@.len() > 0 && over.0@[0] == '[') || (0 <= i < entries.len() && is_written(
            entries[i],
            seq![over],
        ) && extends(over, entries[i])),
    ensures
        merged_head(profile, entries) == provider_lines(profile.provider) + scalar_lines(
            entries,
            seq![over],
        ) + default_lines(profile.provider, entries, seq![over]) + "\n"@,
{
    let overs = seq![over];
    assert(overs[0] == over);
    if over.0@.len() > 0 && over.0@[0] == '[' {
        reveal_strlit("[");
        assert("["@ =~= over.0@.subrange(0, 1));
        assert("["@.is_prefix_of(over.0@));
        assert(!crate::overrides::is_setting(over.0@));
    } else {
        assert(crate::overrides::is_absorbed(over, entries, overs));
    }
    assert(!crate::config::has_line(over, entries, overs));
    reveal_with_fuel(override_lines, 2);
    assert(overs.drop_last() =~= Seq::<(String, toml::Value)>::empty());
    assert(crate::config::override_block(entries, overs) =~= Seq::<char>::empty());
    let head = provider_lines(profile.provider) + scalar_lines(entries, overs) + default_lines(
        profile.provider,
        entries,
        overs,
    ) + "\n"@;
    assert(head + Seq::<char>::empty() =~= head);
}

} // verus!
