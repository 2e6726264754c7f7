//! Migration: making profiles of the scattered configuration and login files of earlier
//! setups.
use vstd::prelude::*;

use crate::config::{common_document, extract_common_config};
use crate::json::{json_of_text, JsonTree};
use crate::json::{parse, Json, JsonObject};
use crate::lists::{lemma_filter_map_step, lemma_no_items};
use crate::provider::{names_are_distinct, pair_map};
use crate::provider::{set_pair, ProviderConfig, ProviderProfile};
use crate::text::{list_contains, lines, strip_prefix, strip_suffix};
use crate::text::{lines_of, opt_view, views, without_prefix, without_suffix};
use crate::toml_docs::{bool_at, get_item, integer_at, member, parse_document, string_at, string_of};
use crate::toml_docs::{
    document_entries, document_of, document_text, entry_at, member_of, opt_bool, opt_integer, opt_string, Entries,
};

verus! {

// ---------------------------------------------------------------------------
// What there is to migrate
// ---------------------------------------------------------------------------

/// A configuration file to make a profile of, with the login file beside it, which is empty
/// where there is none.
#[derive(Debug, PartialEq, Eq)]
pub struct MigrationSource {
    pub config_path: String,
    pub auth_path: String,
    pub profile_name: String,
}

/// A source as a mathematical value.
#[verifier::ext_equal]
pub struct Source {
    pub config_path: Seq<char>,
    pub auth_path: Seq<char>,
    pub profile_name: Seq<char>,
}

impl View for MigrationSource {
    type V = Source;

    open spec fn view(&self) -> Source {
        Source {
            config_path: self.config_path@,
            auth_path: self.auth_path@,
            profile_name: self.profile_name@,
        }
    }
}

/// The sources that a list stands for.
pub open spec fn source_views(sources: Seq<MigrationSource>) -> Seq<Source> {
    sources.map_values(|s: MigrationSource| s@)
}

/// The part of a file name between a prefix and a suffix.
pub open spec fn name_between(file: Seq<char>, prefix: Seq<char>, suffix: Seq<char>) -> Option<
    Seq<char>,
> {
    match without_prefix(file, prefix) {
        Some(rest) => without_suffix(rest, suffix),
        None => None,
    }
}

/// The profile that an earlier configuration file is for.
pub open spec fn legacy_profile(file: Seq<char>) -> Option<Seq<char>> {
    name_between(file, "config_"@, ".toml"@)
}

/// The profile that an earlier login file is for.
pub open spec fn legacy_login(file: Seq<char>) -> Option<Seq<char>> {
    name_between(file, "auth_"@, ".json"@)
}

/// The login file of a profile.
pub open spec fn login_file(profile: Seq<char>) -> Seq<char> {
    "auth_"@ + profile + ".json"@
}

/// The source that a file makes, among the files of the home directory.
pub open spec fn source_of(file: Seq<char>, files: Seq<Seq<char>>) -> Option<Source> {
    match legacy_profile(file) {
        Some(profile) => Some(
            Source {
                config_path: file,
                auth_path: if files.contains(login_file(profile)) {
                    login_file(profile)
                } else {
                    Seq::empty()
                },
                profile_name: profile,
            },
        ),
        None => None,
    }
}

/// The part of a file name between a prefix and a suffix.
pub fn strip_both(file: &str, prefix: &str, suffix: &str) -> (r: Option<String>)
    ensures
        opt_view(r) == name_between(file@, prefix@, suffix@),
{
    match strip_prefix(file, prefix) {
        Some(rest) => strip_suffix(rest.as_str(), suffix),
        None => None,
    }
}

/// The profile that an earlier login file is for.
pub fn profile_of_login_file(file: &str) -> (r: Option<String>)
    ensures
        opt_view(r) == legacy_login(file@),
{
    strip_both(file, "auth_", ".json")
}

/// The login file of a profile.
pub fn login_file_name(profile: &str) -> (r: String)
    ensures
        r@ == login_file(profile@),
{
    let mut out = "auth_".to_owned();
    out.push_str(profile);
    out.push_str(".json");
    out
}

/// A login file is for the profile that it is named after.
pub proof fn login_files_name_their_profile(profile: Seq<char>)
    ensures
        legacy_login(login_file(profile)) == Some(profile),
{
    reveal_strlit("auth_");
    reveal_strlit(".json");
    let file = login_file(profile);
    assert(file.take(5) =~= "auth_"@);
    let rest = file.skip(5);
    assert(rest =~= profile + ".json"@);
    assert(rest.skip(rest.len() - 5) =~= ".json"@);
    assert(rest.take(rest.len() - 5) =~= profile);
}

/// The sources among the files of the home directory, in the order of the files.
pub fn discover_sources(files: &Vec<String>) -> (r: Vec<MigrationSource>)
    ensures
        source_views(r@) == views(files@).filter_map(
            |file: Seq<char>| source_of(file, views(files@)),
        ),
{
    let ghost all = views(files@);
    let ghost made = |file: Seq<char>| source_of(file, views(files@));
    let mut out: Vec<MigrationSource> = Vec::new();
    let mut i: usize = 0;
    proof {
        lemma_no_items(all);
        reveal_with_fuel(Seq::filter_map, 1);
        assert(source_views(out@) =~= all.take(0).filter_map(made));
    }
    while i < files.len()
        invariant
            all == views(files@),
            made == (|file: Seq<char>| source_of(file, views(files@))),
            i <= files@.len(),
            source_views(out@) == all.take(i as int).filter_map(made),
        decreases files@.len() - i,
    {
        proof {
            assert(all[i as int] == files@[i as int]@);
            lemma_filter_map_step(all, i as int, made);
        }
        let ghost before = source_views(out@);
        if let Some(profile_name) = strip_both(files[i].as_str(), "config_", ".toml") {
            let login = login_file_name(profile_name.as_str());
            let auth_path = if list_contains(files, login.as_str()) {
                login
            } else {
                let none = String::new();
                proof {
                    assert(none@ =~= Seq::<char>::empty());
                }
                none
            };
            let source = MigrationSource { config_path: files[i].clone(), auth_path, profile_name };
            let ghost added = source@;
            out.push(source);
            proof {
                assert(source_views(out@) =~= before.push(added));
            }
        }
        i += 1;
    }
    proof {
        lemma_no_items(all);
    }
    out
}

/// How many lines a configuration has, 0 where it could not be read.
pub open spec fn richness(content: Option<String>) -> nat {
    match content {
        Some(text) => lines_of(text@).len(),
        None => 0,
    }
}

/// Whether a configuration is the first with the most lines, and has any.
pub open spec fn is_richest(contents: Seq<Option<String>>, i: int) -> bool {
    &&& 0 <= i < contents.len()
    &&& richness(contents[i]) > 0
    &&& forall|j: int| 0 <= j < contents.len() ==> richness(#[trigger] contents[j]) <= richness(
        contents[i],
    )
    &&& forall|j: int| 0 <= j < i ==> richness(#[trigger] contents[j]) < richness(contents[i])
}

/// The configuration to base the common one on, where none is in use: the first with the most
/// lines. `None` where no configuration can be read or all are empty.
pub fn find_richest_config(contents: &Vec<Option<String>>) -> (r: Option<usize>)
    ensures
        match r {
            Some(i) => is_richest(contents@, i as int),
            None => forall|j: int| 0 <= j < contents@.len() ==> richness(#[trigger] contents@[j]) == 0,
        },
{
    let mut best: Option<usize> = None;
    let mut most: usize = 0;
    let mut i: usize = 0;
    while i < contents.len()
        invariant
            i <= contents@.len(),
            best is None ==> most == 0 && forall|j: int|
                0 <= j < i ==> richness(#[trigger] contents@[j]) == 0,
            best matches Some(b) ==> b < i && most == richness(contents@[b as int]) && most > 0 && (
            forall|j: int| 0 <= j < i ==> richness(#[trigger] contents@[j]) <= most) && (forall|
                j: int,
            |
                0 <= j < b ==> richness(#[trigger] contents@[j]) < most),
        decreases contents@.len() - i,
    {
        let count: usize = match &contents[i] {
            Some(text) => {
                let found = lines(text.as_str());
                proof {
                    assert(views(found@).len() == found@.len());
                }
                found.len()
            },
            None => 0,
        };
        if count > most {
            most = count;
            best = Some(i);
        }
        i += 1;
    }
    best
}

/// What the common configuration is taken from.
#[derive(Debug, Clone, Copy, PartialEq, Eq, Structural)]
pub enum MigrationBase {
    /// The configuration in use.
    Current,
    /// The configuration of a source, by its position.
    Source(usize),
}

/// The common configuration that a migration writes, and what it is taken from.
#[derive(Debug, PartialEq, Eq)]
pub struct Migration {
    pub base: MigrationBase,
    pub common: String,
}

/// Why a migration cannot begin.
#[derive(Debug, Clone, Copy, PartialEq, Eq, Structural)]
pub enum MigrationError {
    /// No configuration is in use, and none of the sources can be read.
    NothingReadable,
    /// What the common configuration is taken from is no TOML document.
    UnreadableBase,
}

impl MigrationError {
    /// The error in words.
    pub open spec fn words(self) -> Seq<char> {
        match self {
            MigrationError::NothingReadable => "No readable config files found"@,
            MigrationError::UnreadableBase => "Failed to parse config content"@,
        }
    }

    /// The error in words.
    pub fn message(&self) -> (r: String)
        ensures
            r@ == self.words(),
    {
        match self {
            MigrationError::NothingReadable => "No readable config files found".to_owned(),
            MigrationError::UnreadableBase => "Failed to parse config content".to_owned(),
        }
    }
}

/// The common configuration to write: that of the configuration in use, or else that of the
/// richest among the configurations of the sources, which are `None` where they cannot be read.
pub fn init_migrate(current: Option<&str>, contents: &Vec<Option<String>>) -> (r: Result<
    Migration,
    MigrationError,
>)
    ensures
        match current {
            Some(text) => match document_of(text@) {
                Some(doc) => r is Ok && r->Ok_0.base == MigrationBase::Current && r->Ok_0.common@
                    == document_text(common_document(doc)),
                None => r == Err::<Migration, MigrationError>(MigrationError::UnreadableBase),
            },
            None => match r {
                Ok(migration) => migration.base matches MigrationBase::Source(i) && is_richest(
                    contents@,
                    i as int,
                ) && document_of(contents@[i as int]->0@) is Some && migration.common@
                    == document_text(common_document(document_of(contents@[i as int]->0@)->0)),
                Err(MigrationError::NothingReadable) => forall|j: int|
                    0 <= j < contents@.len() ==> richness(#[trigger] contents@[j]) == 0,
                Err(MigrationError::UnreadableBase) => exists|i: int|
                    is_richest(contents@, i) && document_of((#[trigger] contents@[i])->0@) is None,
            },
        },
{
    match current {
        Some(text) => match extract_common_config(text) {
            Ok(common) => Ok(Migration { base: MigrationBase::Current, common }),
            Err(_) => Err(MigrationError::UnreadableBase),
        },
        None => match find_richest_config(contents) {
            None => Err(MigrationError::NothingReadable),
            Some(i) => match &contents[i] {
                Some(text) => match extract_common_config(text.as_str()) {
                    Ok(common) => Ok(Migration { base: MigrationBase::Source(i), common }),
                    Err(_) => Err(MigrationError::UnreadableBase),
                },
                None => Err(MigrationError::NothingReadable),
            },
        },
    }
}

// ---------------------------------------------------------------------------
// Making a profile
// ---------------------------------------------------------------------------

/// A number of a configuration, read as a size.
pub open spec fn size_at(entries: Entries, key: Seq<char>) -> Option<u64> {
    match opt_integer(entry_at(entries, key)) {
        Some(n) => Some(n as u64),
        None => None,
    }
}

/// The table in which a configuration registers a provider.
pub open spec fn registration(entries: Entries, model_provider: Seq<char>) -> Option<
    toml_edit::Item,
> {
    member_of(entry_at(entries, "model_providers"@), model_provider)
}

/// The text, or another one where there is none.
pub open spec fn or_else(text: Option<Seq<char>>, other: Seq<char>) -> Seq<char> {
    match text {
        Some(text) => text,
        None => other,
    }
}

/// Whether a provider configuration is what an earlier configuration file says.
pub open spec fn describes(p: ProviderConfig, entries: Entries, profile: Seq<char>) -> bool {
    let provider = or_else(opt_string(entry_at(entries, "model_provider"@)), profile);
    let details = registration(entries, provider);
    &&& p.model_provider@ == provider
    &&& p.name@ == or_else(opt_string(member_of(details, "name"@)), profile)
    &&& p.model@ == or_else(opt_string(entry_at(entries, "model"@)), "unknown"@)
    &&& opt_view(p.base_url) == opt_string(member_of(details, "base_url"@))
    &&& opt_view(p.wire_api) == opt_string(member_of(details, "wire_api"@))
    &&& p.requires_openai_auth == opt_bool(member_of(details, "requires_openai_auth"@))
    &&& p.model_context_window == size_at(entries, "model_context_window"@)
    &&& p.model_auto_compact_token_limit == size_at(entries, "model_auto_compact_token_limit"@)
    &&& opt_view(p.model_reasoning_effort) == opt_string(
        entry_at(entries, "model_reasoning_effort"@),
    )
    &&& p.disable_response_storage == opt_bool(entry_at(entries, "disable_response_storage"@))
}

/// What a configuration says of a provider that it registers: where it is reached, what it
/// speaks, whether it takes the native login, and its name.
pub fn extract_provider_details(doc: &toml_edit::DocumentMut, model_provider: &str) -> (r: (
    Option<String>,
    Option<String>,
    Option<bool>,
    Option<String>,
))
    ensures
        ({
            let details = registration(document_entries(*doc), model_provider@);
            &&& opt_view(r.0) == opt_string(member_of(details, "base_url"@))
            &&& opt_view(r.1) == opt_string(member_of(details, "wire_api"@))
            &&& r.2 == opt_bool(member_of(details, "requires_openai_auth"@))
            &&& opt_view(r.3) == opt_string(member_of(details, "name"@))
        }),
{
    let details = member(&get_item(doc, "model_providers"), model_provider);
    let base_url = string_of(&member(&details, "base_url"));
    let wire_api = string_of(&member(&details, "wire_api"));
    let requires_auth = match member(&details, "requires_openai_auth") {
        Some(item) => item.as_bool(),
        None => None,
    };
    let name = string_of(&member(&details, "name"));
    (base_url, wire_api, requires_auth, name)
}

fn size_of(doc: &toml_edit::DocumentMut, key: &str) -> (r: Option<u64>)
    ensures
        r == size_at(document_entries(*doc), key@),
{
    match integer_at(doc, key) {
        Some(n) => Some(n as u64),
        None => None,
    }
}

/// What an earlier configuration says of its provider.
pub fn describe_provider(doc: &toml_edit::DocumentMut, profile_name: &str) -> (r: ProviderConfig)
    ensures
        describes(r, document_entries(*doc), profile_name@),
{
    let model_provider = match string_at(doc, "model_provider") {
        Some(found) => found,
        None => profile_name.to_owned(),
    };
    let model = match string_at(doc, "model") {
        Some(found) => found,
        None => "unknown".to_owned(),
    };
    let (base_url, wire_api, requires_openai_auth, display_name) = extract_provider_details(
        doc,
        model_provider.as_str(),
    );
    let name = match display_name {
        Some(found) => found,
        None => profile_name.to_owned(),
    };
    ProviderConfig {
        model_provider,
        name,
        model,
        base_url,
        wire_api,
        requires_openai_auth,
        model_context_window: size_of(doc, "model_context_window"),
        model_auto_compact_token_limit: size_of(doc, "model_auto_compact_token_limit"),
        model_reasoning_effort: string_at(doc, "model_reasoning_effort"),
        disable_response_storage: bool_at(doc, "disable_response_storage"),
    }
}

/// The members of an object by key.
pub type Members = Map<Seq<char>, JsonTree>;

/// The texts among the members of a login.
pub open spec fn simple_values(m: Members) -> Map<Seq<char>, Seq<char>> {
    Map::new(
        |k: Seq<char>| m.contains_key(k) && m[k].text() is Some,
        |k: Seq<char>| m[k].text()->0,
    )
}

/// Whether a member is more than a text.
pub open spec fn is_complex(tree: JsonTree) -> bool {
    tree.text() is None && tree != JsonTree::Null
}

/// Whether any member of a login is more than a text.
pub open spec fn has_complex_values(m: Members) -> bool {
    exists|k: Seq<char>| m.contains_key(k) && is_complex(#[trigger] m[k])
}

/// A note that tells where the whole login of a profile is kept.
pub open spec fn login_note(profile: Seq<char>) -> Seq<char> {
    "Full auth stored in "@ + profile + ".auth.json (contains tokens/complex fields)"@
}

/// The values of a login that a profile shows: its texts, and a note where there is more.
pub open spec fn shown_values(m: Members, profile: Seq<char>) -> Map<Seq<char>, Seq<char>> {
    if has_complex_values(m) {
        simple_values(m).insert("_note"@, login_note(profile))
    } else {
        simple_values(m)
    }
}

/// The note that tells where the whole login of a profile is kept.
pub fn make_login_note(profile_name: &str) -> (r: String)
    ensures
        r@ == login_note(profile_name@),
{
    let mut out = "Full auth stored in ".to_owned();
    out.push_str(profile_name);
    out.push_str(".auth.json (contains tokens/complex fields)");
    out
}

/// The members that stand before a position, as a list of keys.
spec fn seen(members: JsonObject, i: int, k: Seq<char>) -> bool {
    exists|j: int| 0 <= j < i && #[trigger] members.key_at(j) == k
}

/// The values of a login that a profile shows.
pub fn show_values(members: &JsonObject, profile_name: &str) -> (r: Vec<(String, String)>)
    ensures
        names_are_distinct(r@),
        pair_map(r@) == shown_values(members@, profile_name@),
{
    let mut out: Vec<(String, String)> = Vec::new();
    let mut complex = false;
    let total: usize = members.len();
    let mut i: usize = 0;
    proof {
        assert(pair_map(out@) =~= Map::<Seq<char>, Seq<char>>::empty());
    }
    while i < total
        invariant
            i <= total,
            total == members.count(),
            names_are_distinct(out@),
            forall|k: Seq<char>| #[trigger]
                pair_map(out@).contains_key(k) <==> seen(*members, i as int, k)
                    && members@.contains_key(k) && members@[k].text() is Some,
            forall|k: Seq<char>| #[trigger]
                pair_map(out@).contains_key(k) ==> pair_map(out@)[k] == members@[k].text()->0,
            complex ==> has_complex_values(members@),
            !complex ==> forall|k: Seq<char>|
                seen(*members, i as int, k) && members@.contains_key(k) ==> !is_complex(
                    #[trigger] members@[k],
                ),
        decreases total - i,
    {
        let (key, value) = members.member(i);
        let ghost before = pair_map(out@);
        proof {
            assert(members.key_at(i as int) == key@);
            assert forall|k: Seq<char>| #[trigger]
                seen(*members, i + 1, k) <==> seen(*members, i as int, k) || k == key@ by {
                if seen(*members, i + 1, k) {
                    let j = choose|j: int| 0 <= j < i + 1 && #[trigger] members.key_at(j) == k;
                    if j < i {
                        assert(seen(*members, i as int, k));
                    }
                }
                if seen(*members, i as int, k) {
                    let j = choose|j: int| 0 <= j < i && #[trigger] members.key_at(j) == k;
                    assert(0 <= j < i + 1 && members.key_at(j) == k);
                }
                if k == key@ {
                    assert(0 <= i < i + 1 && members.key_at(i as int) == k);
                }
            }
        }
        match value {
            Json::Text(text) => {
                set_pair(&mut out, key.clone(), text.clone());
            },
            Json::Null => {},
            _ => {
                proof {
                    assert(is_complex(members@[key@]));
                }
                complex = true;
            },
        }
        i += 1;
    }
    proof {
        members.lemma_positions();
        let expected = simple_values(members@);
        assert forall|k: Seq<char>| pair_map(out@).contains_key(k) <==> expected.contains_key(k) by {
            if members@.contains_key(k) {
                let j = choose|j: int| 0 <= j < members.count() && #[trigger] members.key_at(j) == k;
                assert(seen(*members, i as int, k));
            }
        }
        assert(pair_map(out@) =~= expected);
        if !complex && has_complex_values(members@) {
            let k = choose|k: Seq<char>| members@.contains_key(k) && is_complex(#[trigger] members@[k]);
            let j = choose|j: int| 0 <= j < members.count() && #[trigger] members.key_at(j) == k;
            assert(seen(*members, i as int, k));
        }
    }
    if complex {
        set_pair(&mut out, "_note".to_owned(), make_login_note(profile_name));
    }
    out
}

/// The values that a profile shows of a login file: none where there is no file or it holds
/// no object.
pub open spec fn values_of_login(content: Option<&str>, profile: Seq<char>) -> Map<
    Seq<char>,
    Seq<char>,
> {
    match content {
        Some(text) => match json_of_text(text@) {
            Some(JsonTree::Object(m)) => shown_values(m, profile),
            _ => Map::empty(),
        },
        None => Map::empty(),
    }
}

/// A configuration file that is no TOML document.
#[derive(Debug, Clone, Copy, PartialEq, Eq, Structural)]
pub struct UnreadableSource;

/// The profile that an earlier configuration file and login file make; an error where the
/// configuration is no TOML document.
pub fn create_profile_from_source(config: &str, login: Option<&str>, profile_name: &str) -> (r:
    Result<ProviderProfile, UnreadableSource>)
    ensures
        match document_of(config@) {
            None => r is Err,
            Some(doc) => {
                &&& r is Ok
                &&& describes(r->Ok_0.provider, document_entries(doc), profile_name@)
                &&& names_are_distinct(r->Ok_0.auth@)
                &&& pair_map(r->Ok_0.auth@) == values_of_login(login, profile_name@)
                &&& r->Ok_0.config_overrides is None
            },
        },
{
    let doc = match parse_document(config) {
        Some(doc) => doc,
        None => {
            return Err(UnreadableSource);
        },
    };
    let mut auth: Vec<(String, String)> = Vec::new();
    if let Some(text) = login {
        if let Some(Json::Object(members)) = parse(text) {
            auth = show_values(&members, profile_name);
        }
    }
    Ok(
        ProviderProfile {
            provider: describe_provider(&doc, profile_name),
            auth,
            config_overrides: None,
        },
    )
}

/// The line that tells of a source.
pub fn source_line(source: &MigrationSource) -> (r: String)
    ensures
        r@ == "  - "@ + source.profile_name@ + " (config: "@ + source.config_path@ + ", auth: "@ + (
        if source.auth_path@.len() == 0 {
            "(no auth)"@
        } else {
            source.auth_path@
        }) + ")"@,
{
    let mut out = "  - ".to_owned();
    out.push_str(source.profile_name.as_str());
    out.push_str(" (config: ");
    out.push_str(source.config_path.as_str());
    out.push_str(", auth: ");
    if source.auth_path.as_str().is_empty() {
        out.push_str("(no auth)");
    } else {
        out.push_str(source.auth_path.as_str());
    }
    out.push_str(")");
    out
}

/// A note never stands in for a token: what a profile shows of a login is a text of it, or
/// the note.
pub proof fn profiles_show_no_complex_value(m: Members, profile: Seq<char>, key: Seq<char>)
    requires
        shown_values(m, profile).contains_key(key),
        key != "_note"@,
    ensures
        m.contains_key(key),
        m[key] == JsonTree::Text(shown_values(m, profile)[key]),
{
}

} // verus!
