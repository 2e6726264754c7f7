//! Configuration files: splitting one into what is common to all providers and what is not,
//! and putting it together for a profile.
use vstd::prelude::*;

use crate::overrides::{
    absorbs, item_is_section, names_key, overlay, writes_all, writes_entry,
};
use crate::overrides::{
    all_items, begins_at, can_write, can_write_all, extends, is_absorbed, is_named, is_replaced,
    is_section, is_setting, is_written, listed, override_leaves, overlaid, replaces,
};
use crate::paths::{join_path, path_below};
use crate::provider::{ProviderConfig, ProviderProfile};
use crate::text::{decimal_text, same_text, starts_with, trim, CharClass};
use crate::text::{decimal, opt_view, trimmed};
use crate::toml_docs::{
    begins_with_string, document_entries, document_of, document_text, document_without,
    entries_without, entry_at, entry_views, has_other_key, is_bare_key, is_plain, item_text,
    opt_string, section_text, string_line, value_text, Entries,
};
use crate::toml_docs::{
    document_to_text, get_item, item_to_text, list_entries, parse_document, remove_key,
    section_to_text, string_at, value_to_text,
};

verus! {

// ---------------------------------------------------------------------------
// Places
// ---------------------------------------------------------------------------

/// The directory that everything is kept in.
pub fn codex_dir(home: &str) -> (r: String)
    ensures
        r@ == path_below(home@, ".codex"@),
{
    join_path(home, ".codex")
}

/// The file of the common configuration.
pub fn common_toml_path(codex_dir: &str) -> (r: String)
    ensures
        r@ == path_below(codex_dir@, "common.toml"@),
{
    join_path(codex_dir, "common.toml")
}

/// The file of the configuration in use.
pub fn config_toml_path(codex_dir: &str) -> (r: String)
    ensures
        r@ == path_below(codex_dir@, "config.toml"@),
{
    join_path(codex_dir, "config.toml")
}

// ---------------------------------------------------------------------------
// Reading
// ---------------------------------------------------------------------------

/// A text that is no TOML document.
#[derive(Debug, Clone, Copy, PartialEq, Eq, Structural)]
pub struct UnreadableConfig;

/// The provider that a configuration names; none where there is no configuration. It is the
/// one of the first line, where that names one plainly.
pub fn read_current_model_provider(content: Option<&str>) -> (r: Result<
    Option<String>,
    UnreadableConfig,
>)
    ensures
        match content {
            None => r is Ok && r->Ok_0 is None,
            Some(text) => match document_of(text@) {
                None => r is Err,
                Some(doc) => r is Ok && opt_view(r->Ok_0) == opt_string(
                    entry_at(document_entries(doc), "model_provider"@),
                ),
            },
        },
        forall|name: Seq<char>|
            content is Some && r is Ok && #[trigger] begins_with_string(
                content->0@,
                "model_provider"@,
                name,
            ) ==> opt_view(r->Ok_0) == Some(name),
{
    match content {
        None => Ok(None),
        Some(text) => match parse_document(text) {
            None => Err(UnreadableConfig),
            Some(doc) => Ok(string_at(&doc, "model_provider")),
        },
    }
}

/// The document without what belongs to a provider.
pub open spec fn common_document(doc: toml_edit::DocumentMut) -> toml_edit::DocumentMut {
    let doc = document_without(doc, "model_provider"@);
    let doc = document_without(doc, "model"@);
    let doc = document_without(doc, "model_context_window"@);
    let doc = document_without(doc, "model_auto_compact_token_limit"@);
    let doc = document_without(doc, "model_providers"@);
    document_without(doc, "model_catalog_json"@)
}

/// Whether a key belongs to a provider and not to the common configuration.
pub open spec fn is_provider_key(key: Seq<char>) -> bool {
    key == "model_provider"@ || key == "model"@ || key == "model_context_window"@ || key
        == "model_auto_compact_token_limit"@ || key == "model_providers"@ || key
        == "model_catalog_json"@
}

/// Whether an entry belongs to the common configuration.
pub open spec fn is_common_entry(entry: (Seq<char>, toml_edit::Item)) -> bool {
    !is_provider_key(entry.0)
}

/// The entries that belong to the common configuration.
pub open spec fn common_entries(entries: Entries) -> Entries {
    entries.filter(|e: (Seq<char>, toml_edit::Item)| is_common_entry(e))
}

/// The common entries hold no key of a provider, keep every other one with its item, and have
/// the same common entries again: a second extraction changes no entry.
pub proof fn an_extraction_is_final(entries: Entries, key: Seq<char>)
    ensures
        entry_at(common_entries(entries), key) == (if is_provider_key(key) {
            None
        } else {
            entry_at(entries, key)
        }),
        common_entries(common_entries(entries)) == common_entries(entries),
    decreases entries.len(),
{
    let kept = |e: (Seq<char>, toml_edit::Item)| is_common_entry(e);
    lemma_filter_twice(entries, kept, kept, kept);
    if entries.len() == 0 {
        reveal_with_fuel(Seq::filter, 1);
    } else {
        let rest = entries.drop_first();
        an_extraction_is_final(rest, key);
        Seq::filter_distributes_over_add(seq![entries[0]], rest, kept);
        assert(entries =~= seq![entries[0]] + rest);
        reveal_with_fuel(Seq::filter, 2);
        assert(seq![entries[0]].drop_last() =~= Seq::<(Seq<char>, toml_edit::Item)>::empty());
        let first = seq![entries[0]].filter(kept);
        if is_common_entry(entries[0]) {
            assert(first =~= seq![entries[0]]);
            assert(common_entries(entries)[0] == entries[0]);
            assert(common_entries(entries).drop_first() =~= common_entries(rest));
        } else {
            assert(first =~= Seq::<(Seq<char>, toml_edit::Item)>::empty());
            assert(common_entries(entries) =~= common_entries(rest));
        }
    }
}

proof fn lemma_filter_twice<T>(
    items: Seq<T>,
    first: spec_fn(T) -> bool,
    second: spec_fn(T) -> bool,
    both: spec_fn(T) -> bool,
)
    requires
        forall|x: T| #[trigger] both(x) <==> first(x) && second(x),
    ensures
        items.filter(first).filter(second) == items.filter(both),
    decreases items.len(),
{
    reveal_with_fuel(Seq::filter, 1);
    if items.len() > 0 {
        lemma_filter_twice(items.drop_last(), first, second, both);
        let kept = items.drop_last().filter(first);
        assert(both(items.last()) <==> first(items.last()) && second(items.last()));
        if first(items.last()) {
            assert(kept.push(items.last()).drop_last() =~= kept);
        }
    }
}

proof fn lemma_common_entries(entries: Entries)
    ensures
        entries_without(
            entries_without(
                entries_without(
                    entries_without(
                        entries_without(
                            entries_without(entries, "model_provider"@),
                            "model"@,
                        ),
                        "model_context_window"@,
                    ),
                    "model_auto_compact_token_limit"@,
                ),
                "model_providers"@,
            ),
            "model_catalog_json"@,
        ) == common_entries(entries),
{
    let k1 = |e: (Seq<char>, toml_edit::Item)| has_other_key(e, "model_provider"@);
    let k2 = |e: (Seq<char>, toml_edit::Item)| has_other_key(e, "model"@);
    let k3 = |e: (Seq<char>, toml_edit::Item)| has_other_key(e, "model_context_window"@);
    let k4 = |e: (Seq<char>, toml_edit::Item)| has_other_key(e, "model_auto_compact_token_limit"@);
    let k5 = |e: (Seq<char>, toml_edit::Item)| has_other_key(e, "model_providers"@);
    let k6 = |e: (Seq<char>, toml_edit::Item)| has_other_key(e, "model_catalog_json"@);
    let a2 = |e: (Seq<char>, toml_edit::Item)| k1(e) && k2(e);
    let a3 = |e: (Seq<char>, toml_edit::Item)| a2(e) && k3(e);
    let a4 = |e: (Seq<char>, toml_edit::Item)| a3(e) && k4(e);
    let a5 = |e: (Seq<char>, toml_edit::Item)| a4(e) && k5(e);
    let all = |e: (Seq<char>, toml_edit::Item)| is_common_entry(e);
    lemma_filter_twice(entries, k1, k2, a2);
    lemma_filter_twice(entries, a2, k3, a3);
    lemma_filter_twice(entries, a3, k4, a4);
    lemma_filter_twice(entries, a4, k5, a5);
    lemma_filter_twice(entries, a5, k6, all);
}

/// The document without what belongs to a provider: every other entry stays, in order.
pub fn remove_provider_keys(doc: toml_edit::DocumentMut) -> (r: toml_edit::DocumentMut)
    ensures
        r == common_document(doc),
        document_entries(r) == common_entries(document_entries(doc)),
{
    let mut doc = doc;
    let ghost entries = document_entries(doc);
    remove_key(&mut doc, "model_provider");
    remove_key(&mut doc, "model");
    remove_key(&mut doc, "model_context_window");
    remove_key(&mut doc, "model_auto_compact_token_limit");
    remove_key(&mut doc, "model_providers");
    remove_key(&mut doc, "model_catalog_json");
    proof {
        lemma_common_entries(entries);
    }
    doc
}

/// The common part of a configuration; an error where it is no TOML document.
pub fn extract_common_config(content: &str) -> (r: Result<String, UnreadableConfig>)
    ensures
        match document_of(content@) {
            None => r is Err,
            Some(doc) => r is Ok && r->Ok_0@ == document_text(common_document(doc)),
        },
{
    match parse_document(content) {
        None => Err(UnreadableConfig),
        Some(doc) => Ok(document_to_text(&remove_provider_keys(doc))),
    }
}

// ---------------------------------------------------------------------------
// Putting a configuration together
// ---------------------------------------------------------------------------

/// A line with a key and a number.
pub open spec fn number_line(key: Seq<char>, value: Option<u64>) -> Seq<char> {
    match value {
        Some(n) => key + " = "@ + decimal(n as nat) + "\n"@,
        None => Seq::empty(),
    }
}

/// What a configuration begins with: the provider, the model, and the sizes of the model.
pub open spec fn provider_lines(p: ProviderConfig) -> Seq<char> {
    string_line("model_provider"@, p.model_provider@) + string_line("model"@, p.model@)
        + number_line("model_context_window"@, p.model_context_window) + number_line(
        "model_auto_compact_token_limit"@,
        p.model_auto_compact_token_limit,
    ) + "\n"@
}

/// The line of a common setting, where the entry is one that is written.
pub open spec fn scalar_line(
    entry: (Seq<char>, toml_edit::Item),
    overs: Seq<(String, toml::Value)>,
) -> Seq<char> {
    if is_section(entry.1) || !is_written(entry, overs) {
        Seq::empty()
    } else {
        entry.0 + " = "@ + trimmed(item_text(overlaid(entry, overs)), CharClass::Space) + "\n"@
    }
}

/// The lines of the common settings.
pub open spec fn scalar_lines(entries: Entries, overs: Seq<(String, toml::Value)>) -> Seq<char>
    decreases entries.len(),
{
    if entries.len() == 0 {
        Seq::empty()
    } else {
        scalar_lines(entries.drop_last(), overs) + scalar_line(entries.last(), overs)
    }
}

/// The settings of a profile that the common configuration or an override may already hold.
pub open spec fn default_lines(
    p: ProviderConfig,
    entries: Entries,
    overs: Seq<(String, toml::Value)>,
) -> Seq<char> {
    (if p.model_reasoning_effort is Some && entry_at(entries, "model_reasoning_effort"@) is None
        && !is_named("model_reasoning_effort"@, overs) {
        string_line("model_reasoning_effort"@, p.model_reasoning_effort->0@)
    } else {
        Seq::empty()
    }) + if p.disable_response_storage == Some(true) && entry_at(
        entries,
        "disable_response_storage"@,
    ) is None && !is_named("disable_response_storage"@, overs) {
        "disable_response_storage = true\n"@
    } else {
        Seq::empty()
    }
}

/// Whether an override has a line of its own: it is a setting, and is not set inside a common
/// entry.
pub open spec fn has_line(
    over: (String, toml::Value),
    entries: Entries,
    overs: Seq<(String, toml::Value)>,
) -> bool {
    is_setting(over.0@) && !is_absorbed(over, entries, overs)
}

/// The line of an override, where it has one.
pub open spec fn override_line(
    over: (String, toml::Value),
    entries: Entries,
    overs: Seq<(String, toml::Value)>,
) -> Seq<char> {
    if has_line(over, entries, overs) {
        over.0@ + " = "@ + value_text(over.1)->0 + "\n"@
    } else {
        Seq::empty()
    }
}

/// The lines of the first overrides.
pub open spec fn override_lines(
    first: Seq<(String, toml::Value)>,
    entries: Entries,
    overs: Seq<(String, toml::Value)>,
) -> Seq<char>
    decreases first.len(),
{
    if first.len() == 0 {
        Seq::empty()
    } else {
        override_lines(first.drop_last(), entries, overs) + override_line(
            first.last(),
            entries,
            overs,
        )
    }
}

/// Whether any override has a line of its own.
pub open spec fn any_line(entries: Entries, overs: Seq<(String, toml::Value)>) -> bool {
    exists|i: int| 0 <= i < overs.len() && has_line(#[trigger] overs[i], entries, overs)
}

/// The block of the overrides.
pub open spec fn override_block(entries: Entries, overs: Seq<(String, toml::Value)>) -> Seq<char> {
    override_lines(overs, entries, overs) + if any_line(entries, overs) {
        "\n"@
    } else {
        Seq::empty()
    }
}

/// The words for a truth value.
pub open spec fn bool_words(b: bool) -> Seq<char> {
    if b {
        "true"@
    } else {
        "false"@
    }
}

/// The section that registers a provider; the native one needs none.
pub open spec fn provider_section(p: ProviderConfig) -> Seq<char> {
    if p.model_provider@ == "openai"@ {
        Seq::empty()
    } else {
        "[model_providers]\n"@ + "[model_providers."@ + p.model_provider@ + "]\n"@ + string_line(
            "name"@,
            p.name@,
        ) + string_line(
            "wire_api"@,
            match p.wire_api {
                Some(api) => api@,
                None => "responses"@,
            },
        ) + "requires_openai_auth = "@ + bool_words(
            match p.requires_openai_auth {
                Some(required) => required,
                None => true,
            },
        ) + "\n"@ + (match p.base_url {
            Some(url) => string_line("base_url"@, url@),
            None => Seq::empty(),
        }) + "\n"@
    }
}

/// The section of a common entry, where it is one that is written; providers are registered
/// anew.
pub open spec fn common_section(
    entry: (Seq<char>, toml_edit::Item),
    overs: Seq<(String, toml::Value)>,
) -> Seq<char> {
    if is_section(entry.1) && is_written(entry, overs) {
        section_text(entry.0, overlaid(entry, overs))
    } else {
        Seq::empty()
    }
}

/// The sections of the common configuration.
pub open spec fn common_sections(entries: Entries, overs: Seq<(String, toml::Value)>) -> Seq<char>
    decreases entries.len(),
{
    if entries.len() == 0 {
        Seq::empty()
    } else {
        common_sections(entries.drop_last(), overs) + common_section(entries.last(), overs)
    }
}

/// What stands at the top level of the configuration for a profile: its provider and model,
/// the common settings and the overrides.
pub open spec fn merged_head(profile: ProviderProfile, entries: Entries) -> Seq<char> {
    let overs = listed(profile.config_overrides);
    provider_lines(profile.provider) + scalar_lines(entries, overs) + default_lines(
        profile.provider,
        entries,
        overs,
    ) + "\n"@ + override_block(entries, overs)
}

/// The configuration for a profile: what stands at the top level, then the registration of the
/// provider and the common sections. The overrides are laid over what is common.
pub open spec fn merged_config(profile: ProviderProfile, entries: Entries) -> Seq<char> {
    merged_head(profile, entries) + provider_section(profile.provider) + common_sections(
        entries,
        listed(profile.config_overrides),
    )
}

fn push_string_line(out: &mut String, key: &str, value: &str)
    ensures
        final(out)@ == old(out)@ + string_line(key@, value@),
{
    let ghost before = out@;
    out.push_str(key);
    out.push_str(" = \"");
    out.push_str(value);
    out.push_str("\"\n");
    proof {
        assert(out@ =~= before + string_line(key@, value@));
    }
}

fn push_number_line(out: &mut String, key: &str, value: Option<u64>)
    ensures
        final(out)@ == old(out)@ + number_line(key@, value),
{
    let ghost before = out@;
    if let Some(n) = value {
        out.push_str(key);
        out.push_str(" = ");
        out.push_str(decimal_text(n).as_str());
        out.push_str("\n");
    }
    proof {
        assert(out@ =~= before + number_line(key@, value));
    }
}

fn push_provider_lines(out: &mut String, p: &ProviderConfig)
    ensures
        final(out)@ == old(out)@ + provider_lines(*p),
{
    let ghost before = out@;
    push_string_line(out, "model_provider", p.model_provider.as_str());
    push_string_line(out, "model", p.model.as_str());
    push_number_line(out, "model_context_window", p.model_context_window);
    push_number_line(out, "model_auto_compact_token_limit", p.model_auto_compact_token_limit);
    out.push_str("\n");
    proof {
        assert(out@ =~= before + provider_lines(*p));
    }
}

proof fn lemma_extending_overrides_can_be_written(
    entries: Entries,
    overs: Seq<(String, toml::Value)>,
    at: int,
)
    requires
        can_write_all(entries, overs),
        0 <= at < entries.len(),
        is_written(entries[at], overs),
    ensures
        forall|i: int|
            0 <= i < overs.len() && extends(#[trigger] overs[i], entries[at]) ==> all_items(
                override_leaves(overs[i]),
            ),
{
    assert forall|i: int| 0 <= i < overs.len() && extends(
        #[trigger] overs[i],
        entries[at],
    ) implies all_items(override_leaves(overs[i])) by {
        assert(is_absorbed(overs[i], entries, overs));
        assert(can_write(overs[i], entries, overs));
    }
}

fn push_scalar_lines(
    out: &mut String,
    entries: &Vec<(String, toml_edit::Item)>,
    overs: &Vec<(String, toml::Value)>,
)
    requires
        can_write_all(entry_views(entries@), overs@),
    ensures
        final(out)@ == old(out)@ + scalar_lines(entry_views(entries@), overs@),
{
    let ghost before = out@;
    let ghost all = entry_views(entries@);
    let mut i: usize = 0;
    proof {
        assert(before + scalar_lines(all.take(0), overs@) =~= before);
    }
    while i < entries.len()
        invariant
            all == entry_views(entries@),
            can_write_all(all, overs@),
            i <= entries@.len(),
            out@ == before + scalar_lines(all.take(i as int), overs@),
        decreases entries@.len() - i,
    {
        proof {
            assert(all[i as int] == (entries@[i as int].0@, entries@[i as int].1));
            assert(all.take(i + 1).drop_last() =~= all.take(i as int));
            assert(all.take(i + 1).last() == all[i as int]);
        }
        let ghost line = scalar_line(all[i as int], overs@);
        let ghost sofar = out@;
        if !item_is_section(&entries[i].1) && writes_entry(&entries[i], overs) {
            proof {
                lemma_extending_overrides_can_be_written(all, overs@, i as int);
            }
            out.push_str(entries[i].0.as_str());
            out.push_str(" = ");
            let text = item_to_text(&overlay(&entries[i], overs));
            out.push_str(trim(text.as_str(), CharClass::Space).as_str());
            out.push_str("\n");
        }
        proof {
            assert(out@ =~= sofar + line);
            assert(out@ =~= before + scalar_lines(all.take(i + 1), overs@));
        }
        i += 1;
    }
    proof {
        assert(all.take(all.len() as int) =~= all);
    }
}

fn push_default_lines(
    out: &mut String,
    p: &ProviderConfig,
    common: &toml_edit::DocumentMut,
    overs: &Vec<(String, toml::Value)>,
)
    ensures
        final(out)@ == old(out)@ + default_lines(*p, document_entries(*common), overs@),
{
    let ghost before = out@;
    if let Some(effort) = &p.model_reasoning_effort {
        if get_item(common, "model_reasoning_effort").is_none() && !names_key(
            overs,
            "model_reasoning_effort",
        ) {
            push_string_line(out, "model_reasoning_effort", effort.as_str());
        }
    }
    if let Some(disable) = p.disable_response_storage {
        if disable && get_item(common, "disable_response_storage").is_none() && !names_key(
            overs,
            "disable_response_storage",
        ) {
            out.push_str("disable_response_storage = true\n");
        }
    }
    proof {
        assert(out@ =~= before + default_lines(*p, document_entries(*common), overs@));
    }
}

fn push_override_block(
    out: &mut String,
    entries: &Vec<(String, toml_edit::Item)>,
    overs: &Vec<(String, toml::Value)>,
)
    requires
        can_write_all(entry_views(entries@), overs@),
    ensures
        final(out)@ == old(out)@ + override_block(entry_views(entries@), overs@),
{
    let ghost before = out@;
    let ghost all = entry_views(entries@);
    let mut found = false;
    let mut i: usize = 0;
    proof {
        assert(before + override_lines(overs@.take(0), all, overs@) =~= before);
    }
    while i < overs.len()
        invariant
            i <= overs@.len(),
            all == entry_views(entries@),
            can_write_all(all, overs@),
            out@ == before + override_lines(overs@.take(i as int), all, overs@),
            found ==> any_line(all, overs@),
            !found ==> forall|j: int| 0 <= j < i ==> !has_line(#[trigger] overs@[j], all, overs@),
        decreases overs@.len() - i,
    {
        proof {
            assert(overs@.take(i + 1).drop_last() =~= overs@.take(i as int));
            assert(overs@.take(i + 1).last() == overs@[i as int]);
            assert(can_write(overs@[i as int], all, overs@));
        }
        let ghost line = override_line(overs@[i as int], all, overs@);
        let ghost sofar = out@;
        if !starts_with(overs[i].0.as_str(), "[") && !absorbs(entries, overs, &overs[i]) {
            found = true;
            if let Some(text) = value_to_text(&overs[i].1) {
                out.push_str(overs[i].0.as_str());
                out.push_str(" = ");
                out.push_str(text.as_str());
                out.push_str("\n");
            }
            proof {
                assert(has_line(overs@[i as int], all, overs@));
            }
        }
        proof {
            assert(out@ =~= sofar + line);
            assert(out@ =~= before + override_lines(overs@.take(i + 1), all, overs@));
        }
        i += 1;
    }
    if found {
        out.push_str("\n");
    }
    proof {
        assert(overs@.take(overs@.len() as int) =~= overs@);
        assert(out@ =~= before + override_block(all, overs@));
    }
}

fn push_provider_section(out: &mut String, p: &ProviderConfig)
    ensures
        final(out)@ == old(out)@ + provider_section(*p),
{
    let ghost before = out@;
    if !same_text(p.model_provider.as_str(), "openai") {
        out.push_str("[model_providers]\n");
        out.push_str("[model_providers.");
        out.push_str(p.model_provider.as_str());
        out.push_str("]\n");
        let ghost header = "[model_providers]\n"@ + "[model_providers."@ + p.model_provider@
            + "]\n"@;
        assert(out@ =~= before + header);
        push_string_line(out, "name", p.name.as_str());
        let api = match &p.wire_api {
            Some(api) => api.as_str(),
            None => "responses",
        };
        push_string_line(out, "wire_api", api);
        let ghost named = header + string_line("name"@, p.name@) + string_line("wire_api"@, api@);
        assert(out@ =~= before + named);
        let required = match p.requires_openai_auth {
            Some(required) => required,
            None => true,
        };
        out.push_str("requires_openai_auth = ");
        if required {
            out.push_str("true");
        } else {
            out.push_str("false");
        }
        out.push_str("\n");
        let ghost secured = named + "requires_openai_auth = "@ + bool_words(required) + "\n"@;
        assert(out@ =~= before + secured);
        let ghost place = match &p.base_url {
            Some(url) => string_line("base_url"@, url@),
            None => Seq::empty(),
        };
        if let Some(url) = &p.base_url {
            push_string_line(out, "base_url", url.as_str());
        }
        assert(out@ =~= before + (secured + place));
        out.push_str("\n");
        assert(provider_section(*p) == secured + place + "\n"@);
        assert(out@ =~= before + provider_section(*p));
    } else {
        assert(out@ =~= before + provider_section(*p));
    }
}

fn push_common_sections(
    out: &mut String,
    entries: &Vec<(String, toml_edit::Item)>,
    overs: &Vec<(String, toml::Value)>,
)
    requires
        can_write_all(entry_views(entries@), overs@),
    ensures
        final(out)@ == old(out)@ + common_sections(entry_views(entries@), overs@),
{
    let ghost before = out@;
    let ghost all = entry_views(entries@);
    let mut i: usize = 0;
    proof {
        assert(before + common_sections(all.take(0), overs@) =~= before);
    }
    while i < entries.len()
        invariant
            all == entry_views(entries@),
            can_write_all(all, overs@),
            i <= entries@.len(),
            out@ == before + common_sections(all.take(i as int), overs@),
        decreases entries@.len() - i,
    {
        proof {
            assert(all[i as int] == (entries@[i as int].0@, entries@[i as int].1));
            assert(all.take(i + 1).drop_last() =~= all.take(i as int));
            assert(all.take(i + 1).last() == all[i as int]);
        }
        let ghost section = common_section(all[i as int], overs@);
        let ghost sofar = out@;
        if item_is_section(&entries[i].1) && writes_entry(&entries[i], overs) {
            proof {
                lemma_extending_overrides_can_be_written(all, overs@, i as int);
            }
            let item = overlay(&entries[i], overs);
            out.push_str(section_to_text(entries[i].0.as_str(), &item).as_str());
        }
        proof {
            assert(out@ =~= sofar + section);
            assert(out@ =~= before + common_sections(all.take(i + 1), overs@));
        }
        i += 1;
    }
    proof {
        assert(all.take(all.len() as int) =~= all);
    }
}

fn merge_over(
    profile: &ProviderProfile,
    common: &toml_edit::DocumentMut,
    overs: &Vec<(String, toml::Value)>,
) -> (r: Option<String>)
    requires
        overs@ == listed(profile.config_overrides),
    ensures
        r is Some <==> can_write_all(document_entries(*common), overs@),
        r is Some ==> r->0@ == merged_config(*profile, document_entries(*common)),
{
    let entries = list_entries(common);
    if !writes_all(&entries, overs) {
        return None;
    }
    let mut out = String::new();
    push_provider_lines(&mut out, &profile.provider);
    push_scalar_lines(&mut out, &entries, overs);
    push_default_lines(&mut out, &profile.provider, common, overs);
    out.push_str("\n");
    push_override_block(&mut out, &entries, overs);
    proof {
        assert(out@ =~= merged_head(*profile, document_entries(*common)));
    }
    push_provider_section(&mut out, &profile.provider);
    push_common_sections(&mut out, &entries, overs);
    Some(out)
}

/// The configuration for a profile, from the common document; none where an override cannot be
/// written.
pub fn merge_config(profile: &ProviderProfile, common: &toml_edit::DocumentMut) -> (r: Option<
    String,
>)
    ensures
        r is Some <==> can_write_all(
            document_entries(*common),
            listed(profile.config_overrides),
        ),
        r is Some ==> r->0@ == merged_config(*profile, document_entries(*common)),
{
    match &profile.config_overrides {
        Some(overs) => merge_over(profile, common, overs),
        None => {
            let overs: Vec<(String, toml::Value)> = Vec::new();
            proof {
                assert(overs@ =~= listed(profile.config_overrides));
            }
            merge_over(profile, common, &overs)
        },
    }
}

/// Why there is no configuration for a profile.
#[derive(Debug, Clone, Copy, PartialEq, Eq, Structural)]
pub enum MergeError {
    /// The common configuration is no TOML document.
    UnreadableCommon,
    /// An override has no TOML notation.
    UnwritableOverride,
}

/// The configuration for a profile, from the common configuration, which is empty where there
/// is none; an error where that is no TOML document, and where an override cannot be written.
pub fn merge_and_write_config(profile: &ProviderProfile, common: &str) -> (r: Result<
    String,
    MergeError,
>)
    ensures
        match document_of(common@) {
            None => r == Err::<String, MergeError>(MergeError::UnreadableCommon),
            Some(doc) => if can_write_all(document_entries(doc), listed(profile.config_overrides)) {
                r is Ok && r->Ok_0@ == merged_config(*profile, document_entries(doc))
            } else {
                r == Err::<String, MergeError>(MergeError::UnwritableOverride)
            },
        },
{
    match parse_document(common) {
        None => Err(MergeError::UnreadableCommon),
        Some(doc) => match merge_config(profile, &doc) {
            Some(merged) => Ok(merged),
            None => Err(MergeError::UnwritableOverride),
        },
    }
}

/// A configuration begins with the line that names its provider, so the provider that is read
/// from it, where it can be read, is the one of the profile.
pub proof fn a_configuration_begins_with_its_provider(profile: ProviderProfile, entries: Entries)
    requires
        is_plain(profile.provider.model_provider@),
    ensures
        begins_with_string(
            merged_config(profile, entries),
            "model_provider"@,
            profile.provider.model_provider@,
        ),
{
    reveal_strlit("model_provider");
    assert(is_bare_key("model_provider"@));
    let line = string_line("model_provider"@, profile.provider.model_provider@);
    assert(merged_config(profile, entries).take(line.len() as int) =~= line);
}

/// The overrides come before the section that registers the provider, so that they stand at
/// the top level.
pub proof fn overrides_stand_before_sections(profile: ProviderProfile, entries: Entries)
    ensures
        override_block(entries, listed(profile.config_overrides)).is_suffix_of(
            merged_head(profile, entries),
        ),
        merged_config(profile, entries) == merged_head(profile, entries) + (provider_section(
            profile.provider,
        ) + common_sections(entries, listed(profile.config_overrides))),
{
    let overs = listed(profile.config_overrides);
    let block = override_block(entries, overs);
    let head = merged_head(profile, entries);
    assert(head.subrange(head.len() - block.len(), head.len() as int) =~= block);
    assert(merged_config(profile, entries) =~= head + (provider_section(profile.provider)
        + common_sections(entries, overs)));
}

/// What an extraction leaves in the common configuration never meets the keys that a profile
/// sets: a merge writes each of its settings and sections that no override takes the place of,
/// as it was where no override begins at it.
pub proof fn common_settings_are_all_written(
    entry: (Seq<char>, toml_edit::Item),
    overs: Seq<(String, toml::Value)>,
)
    requires
        is_common_entry(entry),
        !is_replaced(entry, overs),
    ensures
        is_written(entry, overs),
        is_section(entry.1) ==> common_section(entry, overs) == section_text(
            entry.0,
            overlaid(entry, overs),
        ),
        !is_section(entry.1) ==> scalar_line(entry, overs) == entry.0 + " = "@ + trimmed(
            item_text(overlaid(entry, overs)),
            CharClass::Space,
        ) + "\n"@,
        !is_named(entry.0, overs) ==> overlaid(entry, overs) == entry.1,
    decreases overs.len(),
{
    if overs.len() > 0 && !is_named(entry.0, overs) {
        assert(!begins_at(overs[overs.len() - 1], entry.0));
        let fewer = overs.drop_last();
        assert forall|i: int| 0 <= i < fewer.len() implies !replaces(#[trigger] fewer[i], entry)
            && !begins_at(fewer[i], entry.0) by {
            assert(fewer[i] == overs[i]);
        }
        common_settings_are_all_written(entry, fewer);
    }
}

/// No key is set twice by the common configuration and the overrides: an override at which a
/// written common entry begins is set inside that entry, and has no line of its own.
pub proof fn no_common_key_is_set_twice(
    over: (String, toml::Value),
    entries: Entries,
    overs: Seq<(String, toml::Value)>,
    i: int,
)
    requires
        overs.contains(over),
        0 <= i < entries.len(),
        begins_at(over, entries[i].0),
        is_written(entries[i], overs),
    ensures
        extends(over, entries[i]),
        !has_line(over, entries, overs),
{
    let at = overs.index_of(over);
    assert(!replaces(overs[at], entries[i]));
}

} // verus!
