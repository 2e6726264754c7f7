//! What holds of migration, of paths and of moments, said of the names, the entries and the
//! seconds themselves.
use vstd::prelude::*;

use crate::json::JsonTree;
use crate::migrate::{
    describes, is_richest, legacy_login, legacy_profile, richness, shown_values, source_of, Source,
};
use crate::moments::{moment_of_second, nanos_between, Moment};
use crate::oauth::{is_login_profile, LoginOptions};
use crate::paths::{backup_place, extension_of, path_below, path_from, stem_of};
use crate::provider::{pair_map, ProviderConfig, ProviderProfile};
use crate::sessions::Members;
use crate::text::{last_index, lines_of};
use crate::toml_docs::{entry_at, member_of, opt_bool, opt_integer, opt_string, Entries};
use crate::paths::{components_of, name_of};
use crate::text::{joined, joined_pieces_read_back, lemma_joined_front};

verus! {

// ---------------------------------------------------------------------------
// Old files
// ---------------------------------------------------------------------------

proof fn lemma_between(prefix: Seq<char>, name: Seq<char>, suffix: Seq<char>)
    ensures
        crate::migrate::name_between(prefix + name + suffix, prefix, suffix) == Some(name),
{
    let full = prefix + name + suffix;
    let rest = name + suffix;
    assert(full.subrange(0, prefix.len() as int) =~= prefix);
    assert(full.skip(prefix.len() as int) =~= rest);
    assert(rest.subrange(rest.len() - suffix.len(), rest.len() as int) =~= suffix);
    assert(rest.take(rest.len() - suffix.len()) =~= name);
}

/// An old configuration names its profile, and so does an old login; a file that does not begin
/// so names none.
pub proof fn old_files_name_their_profile(name: Seq<char>, file: Seq<char>)
    ensures
        legacy_profile("config_"@ + name + ".toml"@) == Some(name),
        legacy_login("auth_"@ + name + ".json"@) == Some(name),
        !"config_"@.is_prefix_of(file) ==> legacy_profile(file) is None,
        !"auth_"@.is_prefix_of(file) ==> legacy_login(file) is None,
        !".toml"@.is_suffix_of(file) ==> legacy_profile(file) is None,
        !".json"@.is_suffix_of(file) ==> legacy_login(file) is None,
{
    lemma_between("config_"@, name, ".toml"@);
    lemma_between("auth_"@, name, ".json"@);
    lemma_suffix_of_rest(file, "config_"@, ".toml"@);
    lemma_suffix_of_rest(file, "auth_"@, ".json"@);
}

proof fn lemma_suffix_of_rest(file: Seq<char>, prefix: Seq<char>, suffix: Seq<char>)
    ensures
        crate::migrate::name_between(file, prefix, suffix) is Some ==> suffix.is_suffix_of(file),
{
    if prefix.is_prefix_of(file) && suffix.is_suffix_of(file.skip(prefix.len() as int)) {
        let rest = file.skip(prefix.len() as int);
        assert(file.subrange(file.len() - suffix.len(), file.len() as int) =~= rest.subrange(
            rest.len() - suffix.len(),
            rest.len() as int,
        ));
    }
}

/// An old configuration is migrated with the login of the same profile where that file is there,
/// and without one otherwise.
pub proof fn old_configurations_find_their_login(name: Seq<char>, files: Seq<Seq<char>>)
    ensures
        ({
            let file = "config_"@ + name + ".toml"@;
            let login = "auth_"@ + name + ".json"@;
            &&& files.contains(login) ==> source_of(file, files) == Some(
                Source { config_path: file, auth_path: login, profile_name: name },
            )
            &&& !files.contains(login) ==> source_of(file, files) == Some(
                Source { config_path: file, auth_path: Seq::empty(), profile_name: name },
            )
        }),
{
    lemma_between("config_"@, name, ".toml"@);
}

/// The configuration with the most lines is taken as the base, the first one of those; one
/// without lines never is.
pub proof fn the_longest_configuration_is_the_base(
    contents: Seq<Option<String>>,
    i: int,
    j: int,
    a: String,
    b: String,
)
    requires
        is_richest(contents, i),
        0 <= j < contents.len(),
        contents[i] == Some(a),
    ensures
        lines_of(a@).len() > 0,
        contents[j] == Some(b) ==> lines_of(b@).len() <= lines_of(a@).len(),
        contents[j] == Some(b) && j < i ==> lines_of(b@).len() < lines_of(a@).len(),
        is_richest(contents, j) ==> i == j,
{
    assert(richness(contents[j]) <= richness(contents[i]));
    if is_richest(contents, j) {
        assert(richness(contents[i]) <= richness(contents[j]));
    }
}

/// A migrated profile has the provider, the model and the settings of its configuration, and the
/// name and the interface under which the configuration registers the provider. What is missing
/// is named after the profile, and a missing model is unknown.
pub proof fn a_migrated_profile_is_read_from_its_configuration(
    p: ProviderConfig,
    entries: Entries,
    profile: Seq<char>,
    provider: Seq<char>,
    details: Option<toml_edit::Item>,
)
    requires
        describes(p, entries, profile),
        match opt_string(entry_at(entries, "model_provider"@)) {
            Some(named) => provider == named,
            None => provider == profile,
        },
        details == member_of(entry_at(entries, "model_providers"@), provider),
    ensures
        p.model_provider@ == provider,
        opt_string(entry_at(entries, "model"@)) matches Some(model) ==> p.model@ == model,
        opt_string(entry_at(entries, "model"@)) is None ==> p.model@ == "unknown"@,
        opt_string(member_of(details, "name"@)) matches Some(name) ==> p.name@ == name,
        opt_string(member_of(details, "name"@)) is None ==> p.name@ == profile,
        opt_string(member_of(details, "wire_api"@)) matches Some(api) ==> p.wire_api is Some
            && p.wire_api->0@ == api,
        opt_string(member_of(details, "wire_api"@)) is None ==> p.wire_api is None,
        opt_string(member_of(details, "base_url"@)) matches Some(url) ==> p.base_url is Some
            && p.base_url->0@ == url,
        opt_string(member_of(details, "base_url"@)) is None ==> p.base_url is None,
        p.requires_openai_auth == opt_bool(member_of(details, "requires_openai_auth"@)),
        p.disable_response_storage == opt_bool(entry_at(entries, "disable_response_storage"@)),
        opt_string(entry_at(entries, "model_reasoning_effort"@)) matches Some(effort)
            ==> p.model_reasoning_effort is Some && p.model_reasoning_effort->0@ == effort,
        opt_string(entry_at(entries, "model_reasoning_effort"@)) is None
            ==> p.model_reasoning_effort is None,
        opt_integer(entry_at(entries, "model_context_window"@)) matches Some(n) ==> 0 <= n
            ==> p.model_context_window is Some && p.model_context_window->0 == n,
        opt_integer(entry_at(entries, "model_context_window"@)) is None ==> p.model_context_window
            is None,
        opt_integer(entry_at(entries, "model_auto_compact_token_limit"@)) matches Some(n) ==> 0
            <= n ==> p.model_auto_compact_token_limit is Some
            && p.model_auto_compact_token_limit->0 == n,
        opt_integer(entry_at(entries, "model_auto_compact_token_limit"@)) is None
            ==> p.model_auto_compact_token_limit is None,
{
}

/// A profile shows the texts of a login, and a note exactly where the login holds something else
/// than texts and empty values.
pub proof fn texts_of_a_login_are_shown(m: Members, profile: Seq<char>, key: Seq<char>, text: Seq<char>)
    requires
        m.contains_key(key),
        key != "_note"@,
    ensures
        m[key] == JsonTree::Text(text) ==> shown_values(m, profile).contains_key(key)
            && shown_values(m, profile)[key] == text,
        !(m[key] is Text) ==> !shown_values(m, profile).contains_key(key),
        !(m[key] is Text) && !(m[key] is Null) ==> shown_values(m, profile).contains_key("_note"@)
            && shown_values(m, profile)["_note"@] == "Full auth stored in "@ + profile
            + ".auth.json (contains tokens/complex fields)"@,
        !m.contains_key("_note"@) && (forall|k: Seq<char>| #[trigger]
            m.contains_key(k) ==> m[k] is Text || m[k] is Null) ==> !shown_values(
            m,
            profile,
        ).contains_key("_note"@),
{
    if !(m[key] is Text) && !(m[key] is Null) {
        assert(crate::migrate::is_complex(m[key]));
        assert(crate::migrate::has_complex_values(m));
    }
}

/// A login that is saved becomes a profile with the provider and the model that were asked for,
/// and with the native provider and its standard model otherwise; it registers no address and no
/// interface.
pub proof fn a_saved_login_has_its_settings(
    profile: ProviderProfile,
    name: Seq<char>,
    options: LoginOptions,
    login: Members,
    mode: Seq<char>,
    time: Seq<char>,
)
    requires
        is_login_profile(profile, name, options, JsonTree::Object(login)),
    ensures
        ({
            let p = profile.provider;
            let shown = pair_map(profile.auth@);
            &&& p.name@ == name
            &&& options.model_provider is Some ==> p.model_provider@ == options.model_provider->0@
            &&& options.model_provider is None ==> p.model_provider@ == "openai"@
            &&& options.model is Some ==> p.model@ == options.model->0@
            &&& options.model is None ==> p.model@ == "gpt-5.5"@
            &&& p.base_url is None
            &&& p.wire_api is None
            &&& p.model_reasoning_effort is Some
            &&& p.model_reasoning_effort->0@ == "high"@
            &&& p.disable_response_storage == Some(true)
            &&& login.contains_key("auth_mode"@) && login["auth_mode"@] == JsonTree::Text(mode)
                ==> shown.contains_key("auth_mode"@) && shown["auth_mode"@] == mode
            &&& login.contains_key("last_refresh"@) && login["last_refresh"@] == JsonTree::Text(
                time,
            ) ==> shown.contains_key("last_refresh"@) && shown["last_refresh"@] == time
            &&& forall|key: Seq<char>| #[trigger]
                shown.contains_key(key) ==> key == "auth_mode"@ || key == "last_refresh"@ || key
                    == "_note"@
        }),
{
    reveal_strlit("auth_mode");
    reveal_strlit("last_refresh");
    reveal_strlit("_note");
    assert("auth_mode"@.len() == 9);
    assert("last_refresh"@.len() == 12);
    assert("_note"@.len() == 5);
}

// ---------------------------------------------------------------------------
// Paths
// ---------------------------------------------------------------------------

/// A path is put below another with one separator between them; one that begins at the root
/// stands for itself.
pub proof fn paths_are_put_below_each_other(base: Seq<char>, part: Seq<char>)
    ensures
        path_below(base, seq!['/'] + part) == seq!['/'] + part,
        base.len() > 0 && base.last() != '/' && part.len() > 0 && part[0] != '/' ==> path_below(
            base,
            part,
        ) == base + seq!['/'] + part,
        part.len() > 0 && part[0] != '/' ==> path_below(base.push('/'), part) == base + seq!['/']
            + part,
        part.len() > 0 && part[0] != '/' ==> path_below(Seq::empty(), part) == part,
{
    assert((seq!['/'] + part)[0] == '/');
    assert(base.push('/') + part =~= base + seq!['/'] + part);
    assert(Seq::<char>::empty() + part =~= part);
}

/// The extension of a name follows its last dot, and the stem precedes it; a name that only
/// begins with a dot has none.
pub proof fn an_extension_follows_the_last_dot(stem: Seq<char>, extension: Seq<char>)
    requires
        !extension.contains('.'),
        stem.len() > 0,
        stem != seq!['.'],
    ensures
        extension_of(stem.push('.') + extension) == Some(extension),
        stem_of(stem.push('.') + extension) == stem,
        extension_of(seq!['.'] + extension) is None,
        extension_of(extension) is None,
        stem_of(extension) == extension,
{
    reveal_strlit("..");
    let name = stem.push('.') + extension;
    lemma_last_dot(stem, extension);
    lemma_last_dot(Seq::empty(), extension);
    lemma_no_dot(extension);
    assert(Seq::<char>::empty().push('.') + extension =~= seq!['.'] + extension);
    assert(name.skip(stem.len() as int + 1) =~= extension);
    assert(name.take(stem.len() as int) =~= stem);
    if name == ".."@ {
        assert(name.len() == 2);
        assert(stem.len() == 1);
        assert(name[0] == '.');
        assert(stem =~= seq!['.']);
    }
}

proof fn lemma_last_dot(stem: Seq<char>, extension: Seq<char>)
    requires
        !extension.contains('.'),
    ensures
        last_index(stem.push('.') + extension, '.') == Some(stem.len()),
    decreases extension.len(),
{
    let s = stem.push('.') + extension;
    if extension.len() > 0 {
        let fewer = extension.drop_last();
        assert(extension.contains(extension[extension.len() - 1]));
        assert forall|i: int| 0 <= i < fewer.len() implies fewer[i] != '.' by {
            assert(extension.contains(extension[i]));
        }
        lemma_last_dot(stem, fewer);
        assert(s.drop_last() =~= stem.push('.') + fewer);
    } else {
        assert(s.last() == '.');
    }
}

proof fn lemma_no_dot(s: Seq<char>)
    requires
        !s.contains('.'),
    ensures
        last_index(s, '.') is None,
    decreases s.len(),
{
    if s.len() > 0 {
        assert(s.contains(s[s.len() - 1]));
        let fewer = s.drop_last();
        assert forall|i: int| 0 <= i < fewer.len() implies fewer[i] != '.' by {
            assert(s.contains(s[i]));
        }
        lemma_no_dot(fewer);
    }
}

/// A backup is kept below the backup directory: where it lies below the home directory under the
/// same path, and otherwise under its name.
pub proof fn backups_keep_their_paths(
    path: Seq<char>,
    home: Seq<char>,
    dir: Seq<char>,
    fallback: Seq<char>,
    below: Seq<char>,
)
    ensures
        path_from(path, home) == Some(below) ==> backup_place(path, home, dir, fallback)
            == path_below(dir, below),
        path_from(path, home) is None && crate::paths::name_of(path) == Some(below)
            ==> backup_place(path, home, dir, fallback) == path_below(dir, below),
        path_from(path, home) is None && crate::paths::name_of(path) is None ==> backup_place(
            path,
            home,
            dir,
            fallback,
        ) == path_below(dir, fallback),
{
}

// ---------------------------------------------------------------------------
// Moments
// ---------------------------------------------------------------------------

/// Of two moments at most one is later; they are the same where neither is; and a later one
/// stays later against all that is earlier than the other.
pub proof fn moments_are_ordered(a: Moment, b: Moment, c: Moment)
    ensures
        !(a.later_than(b) && b.later_than(a)),
        !a.later_than(b) && !b.later_than(a) ==> a == b,
        a.later_than(b) && b.later_than(c) ==> a.later_than(c),
        a.secs > b.secs ==> a.later_than(b),
        a.secs == b.secs && a.nanos > b.nanos ==> a.later_than(b),
{
}

/// The span between two whole seconds counts their difference, forwards and backwards.
pub proof fn spans_count_the_seconds(a: i64, b: i64)
    requires
        moment_of_second(a) is Some,
        moment_of_second(b) is Some,
    ensures
        moment_of_second(a)->0.secs == a,
        moment_of_second(a)->0.nanos == 0,
        nanos_between(moment_of_second(a)->0, moment_of_second(b)->0) == (b - a) * 1000000000,
        moment_of_second(b)->0.later_than(moment_of_second(a)->0) <==> b > a,
{
}

// ---------------------------------------------------------------------------
// Components
// ---------------------------------------------------------------------------

/// Whether texts are names of files or directories.
pub open spec fn are_names(parts: Seq<Seq<char>>) -> bool {
    forall|i: int|
        0 <= i < parts.len() ==> (#[trigger] parts[i]).len() > 0 && !parts[i].contains('/')
            && parts[i] != "."@
}

/// A path from the root is made of the root and the names along it.
pub proof fn a_path_is_made_of_its_names(parts: Seq<Seq<char>>)
    requires
        are_names(parts),
        parts.len() > 0,
    ensures
        components_of(seq!['/'] + joined(parts, seq!['/'])) == seq!["/"@] + parts,
{
    let path = seq!['/'] + joined(parts, seq!['/']);
    let pieces = seq![Seq::<char>::empty()] + parts;
    lemma_joined_front(pieces, seq!['/']);
    assert(pieces.drop_first() =~= parts);
    assert(path =~= joined(pieces, seq!['/'])) by {
        assert(Seq::<char>::empty() + seq!['/'] + joined(parts, seq!['/']) =~= path);
    }
    assert forall|i: int| 0 <= i < pieces.len() implies !(#[trigger] pieces[i]).contains('/') by {
        if i > 0 {
            assert(pieces[i] == parts[i - 1]);
        }
    }
    joined_pieces_read_back(pieces, '/');
    let keep = |piece: Seq<char>| crate::paths::is_component(piece);
    let first = seq![Seq::<char>::empty()];
    first.lemma_all_neg_filter_empty(keep);
    lemma_names_are_kept(parts, keep);
    Seq::filter_distributes_over_add(first, parts, keep);
    assert(pieces.filter(keep) =~= parts);
}

proof fn lemma_names_are_kept(parts: Seq<Seq<char>>, keep: spec_fn(Seq<char>) -> bool)
    requires
        forall|i: int| 0 <= i < parts.len() ==> keep(#[trigger] parts[i]),
    ensures
        parts.filter(keep) == parts,
    decreases parts.len(),
{
    if parts.len() > 0 {
        let fewer = parts.drop_last();
        assert forall|i: int| 0 <= i < fewer.len() implies keep(#[trigger] fewer[i]) by {
            assert(fewer[i] == parts[i]);
        }
        lemma_names_are_kept(fewer, keep);
        fewer.lemma_filter_push(parts.last(), keep);
        assert(fewer.push(parts.last()) =~= parts);
    } else {
        parts.lemma_filter_len(keep);
        assert(parts.filter(keep) =~= parts);
    }
}

/// What lies below a directory is found from there by the names that are left, and by none
/// where another directory is on the way; a file is named by the last name.
pub proof fn a_path_is_found_from_its_directory(
    base: Seq<Seq<char>>,
    rest: Seq<Seq<char>>,
    other: Seq<Seq<char>>,
)
    requires
        are_names(base),
        are_names(rest),
        are_names(other),
        base.len() > 0,
        rest.len() > 0,
        other.len() == base.len(),
    ensures
        ({
            let path = seq!['/'] + joined(base + rest, seq!['/']);
            &&& path_from(path, seq!['/'] + joined(base, seq!['/'])) == Some(
                joined(rest, seq!['/']),
            )
            &&& other != base ==> path_from(path, seq!['/'] + joined(other, seq!['/'])) is None
            &&& rest.last() != ".."@ ==> name_of(path) == Some(rest.last())
            &&& rest.last() == ".."@ ==> name_of(path) is None
        }),
{
    let all = base + rest;
    assert forall|i: int| 0 <= i < all.len() implies (#[trigger] all[i]).len() > 0
        && !all[i].contains('/') && all[i] != "."@ by {
        if i < base.len() {
            assert(all[i] == base[i]);
        } else {
            assert(all[i] == rest[i - base.len()]);
        }
    }
    a_path_is_made_of_its_names(all);
    a_path_is_made_of_its_names(base);
    a_path_is_made_of_its_names(other);
    let whole = seq!["/"@] + all;
    let start = seq!["/"@] + base;
    let wrong = seq!["/"@] + other;
    assert(whole.take(start.len() as int) =~= start);
    assert(whole.skip(start.len() as int) =~= rest);
    assert(whole.last() == rest.last());
    if other != base && whole.take(wrong.len() as int) == wrong {
        assert(wrong == start);
        assert(other =~= base) by {
            assert(wrong.skip(1) =~= other);
            assert(start.skip(1) =~= base);
        }
    }
    reveal_strlit("/");
    assert("/"@[0] == '/');
    let last = rest[rest.len() - 1];
    if last == "/"@ {
        assert(last.contains(last[0]));
    }
}

/// A directory is found from itself by no name.
pub proof fn a_directory_is_found_from_itself(parts: Seq<Seq<char>>)
    requires
        are_names(parts),
        parts.len() > 0,
    ensures
        ({
            let path = seq!['/'] + joined(parts, seq!['/']);
            path_from(path, path) == Some(Seq::<char>::empty())
        }),
{
    let path = seq!['/'] + joined(parts, seq!['/']);
    let whole = components_of(path);
    assert(whole.take(whole.len() as int) =~= whole);
    assert(whole.skip(whole.len() as int) =~= Seq::empty());
    reveal_with_fuel(joined, 1);
}

/// A configuration with more lines than all before it, and with no fewer than all behind it, is
/// the base.
pub proof fn a_longest_configuration_is_taken(contents: Seq<Option<String>>, i: int)
    requires
        0 <= i < contents.len(),
        contents[i] is Some,
        lines_of(contents[i]->0@).len() > 0,
        forall|j: int|
            0 <= j < i && (#[trigger] contents[j]) is Some ==> lines_of(contents[j]->0@).len()
                < lines_of(contents[i]->0@).len(),
        forall|j: int|
            i < j < contents.len() && (#[trigger] contents[j]) is Some ==> lines_of(
                contents[j]->0@,
            ).len() <= lines_of(contents[i]->0@).len(),
    ensures
        is_richest(contents, i),
{
    assert forall|j: int| 0 <= j < contents.len() implies richness(#[trigger] contents[j])
        <= richness(contents[i]) by {}
    assert forall|j: int| 0 <= j < i implies richness(#[trigger] contents[j]) < richness(
        contents[i],
    ) by {}
}

/// A path that does not begin at the root is made of the names along it.
pub proof fn other_paths_are_made_of_their_names(parts: Seq<Seq<char>>)
    requires
        are_names(parts),
        parts.len() > 0,
    ensures
        components_of(joined(parts, seq!['/'])) == parts,
{
    let path = joined(parts, seq!['/']);
    let keep = |piece: Seq<char>| crate::paths::is_component(piece);
    joined_pieces_read_back(parts, '/');
    lemma_names_are_kept(parts, keep);
    lemma_begins_with_first(parts);
    assert(parts[0].contains(parts[0][0]));
}

proof fn lemma_begins_with_first(parts: Seq<Seq<char>>)
    requires
        parts.len() > 0,
        parts[0].len() > 0,
    ensures
        joined(parts, seq!['/']).len() > 0,
        joined(parts, seq!['/'])[0] == parts[0][0],
{
    if parts.len() == 1 {
        reveal_with_fuel(joined, 2);
        assert(joined(parts, seq!['/']) =~= parts[0]);
    } else {
        lemma_joined_front(parts, seq!['/']);
    }
}

/// A dot at the beginning of a path is kept before the names along it.
pub proof fn a_leading_dot_is_kept(parts: Seq<Seq<char>>)
    requires
        are_names(parts),
        parts.len() > 0,
    ensures
        components_of("."@ + seq!['/'] + joined(parts, seq!['/'])) == seq!["."@] + parts,
{
    reveal_strlit(".");
    let keep = |piece: Seq<char>| crate::paths::is_component(piece);
    let dot = seq!["."@];
    let pieces = dot + parts;
    let dotted = "."@ + seq!['/'] + joined(parts, seq!['/']);
    lemma_joined_front(pieces, seq!['/']);
    assert(pieces.drop_first() =~= parts);
    assert(joined(pieces, seq!['/']) == dotted);
    assert forall|i: int| 0 <= i < pieces.len() implies !(#[trigger] pieces[i]).contains('/') by {
        if i > 0 {
            assert(pieces[i] == parts[i - 1]);
        }
    }
    joined_pieces_read_back(pieces, '/');
    assert(dotted[0] == '.');
    lemma_names_are_kept(parts, keep);
    dot.lemma_all_neg_filter_empty(keep);
    Seq::filter_distributes_over_add(dot, parts, keep);
    assert(pieces.filter(keep) =~= parts);
    assert(pieces[0] == "."@);
}

} // verus!
