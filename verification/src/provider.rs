//! Provider profiles: what a profile holds, where it is kept, and how profiles are listed.
use vstd::prelude::*;

use crate::lists::{lemma_filter_map_step, lemma_no_items};
use crate::order::{
    is_before, lemma_not_after_is_transitive, rank_of, sort, sorted, sorting_orders_and_keeps,
    text_before, text_order_is_total, Ranked,
};
use crate::paths::{join_path, path_below, split_extension};
use crate::paths::{extension_of, stem_of};
use crate::text::{last_index, same_text, views};

verus! {

/// A provider profile.
#[derive(Debug)]
pub struct ProviderProfile {
    pub provider: ProviderConfig,
    /// Simple values of the login, by name.
    pub auth: Vec<(String, String)>,
    /// Settings that this provider needs on top of the common ones, by dotted path.
    pub config_overrides: Option<Vec<(String, toml::Value)>>,
}

/// What a profile says of its provider.
#[derive(Debug)]
pub struct ProviderConfig {
    /// The key that the configuration names the provider by.
    pub model_provider: String,
    /// The name to show.
    pub name: String,
    /// The model.
    pub model: String,
    /// Where the provider is reached, if not natively.
    pub base_url: Option<String>,
    /// The interface that it speaks.
    pub wire_api: Option<String>,
    /// Whether it takes the native login.
    pub requires_openai_auth: Option<bool>,
    /// The size of the context window.
    pub model_context_window: Option<u64>,
    /// Where the context is compacted.
    pub model_auto_compact_token_limit: Option<u64>,
    /// How much the model reasons.
    pub model_reasoning_effort: Option<String>,
    /// Whether responses are not to be stored.
    pub disable_response_storage: Option<bool>,
}

/// The directory of the profiles.
pub open spec fn providers_place(codex_dir: Seq<char>) -> Seq<char> {
    path_below(codex_dir, "providers"@)
}

/// The file of a profile.
pub open spec fn profile_place(codex_dir: Seq<char>, name: Seq<char>) -> Seq<char> {
    path_below(providers_place(codex_dir), name + ".toml"@)
}

/// The directory of the profiles.
pub fn providers_dir(codex_dir: &str) -> (r: String)
    ensures
        r@ == providers_place(codex_dir@),
{
    join_path(codex_dir, "providers")
}

/// The file of a profile.
pub fn profile_path(codex_dir: &str, name: &str) -> (r: String)
    ensures
        r@ == profile_place(codex_dir@, name@),
{
    let mut file = name.to_owned();
    file.push_str(".toml");
    join_path(providers_dir(codex_dir).as_str(), file.as_str())
}

/// The profile that a file of the profile directory holds: named like the file, where that is
/// a TOML file.
pub open spec fn profile_of_file(file: Seq<char>) -> Option<Seq<char>> {
    if extension_of(file) == Some("toml"@) {
        Some(stem_of(file))
    } else {
        None
    }
}

/// The profile that a file of the profile directory holds.
pub fn profile_name_of_file(file: &str) -> (r: Option<String>)
    ensures
        match r {
            Some(name) => profile_of_file(file@) == Some(name@),
            None => profile_of_file(file@) is None,
        },
{
    let (stem, extension) = split_extension(file);
    match extension {
        Some(extension) => {
            if same_text(extension.as_str(), "toml") {
                Some(stem)
            } else {
                None
            }
        },
        None => None,
    }
}

/// The profiles that the files of the profile directory hold.
pub open spec fn profiles_in(files: Seq<Seq<char>>) -> Seq<Seq<char>> {
    files.filter_map(|file: Seq<char>| profile_of_file(file))
}

/// The names of the profiles whose files are given, in order; the files are not read.
pub fn list_profile_file_names(files: &Vec<String>) -> (r: Vec<String>)
    ensures
        exists|found: Seq<String>|
            views(found) == profiles_in(views(files@)) && r@ == #[trigger] sorted(found),
{
    let ghost all = views(files@);
    let ghost named = |file: Seq<char>| profile_of_file(file);
    let mut out: Vec<String> = Vec::new();
    let mut i: usize = 0;
    proof {
        lemma_no_items(all);
        reveal_with_fuel(Seq::filter_map, 1);
        assert(views(out@) =~= all.take(0).filter_map(named));
    }
    while i < files.len()
        invariant
            all == views(files@),
            named == (|file: Seq<char>| profile_of_file(file)),
            i <= files@.len(),
            views(out@) == all.take(i as int).filter_map(named),
        decreases files@.len() - i,
    {
        proof {
            assert(all[i as int] == files@[i as int]@);
            lemma_filter_map_step(all, i as int, named);
        }
        let ghost before = views(out@);
        if let Some(name) = profile_name_of_file(files[i].as_str()) {
            out.push(name);
            proof {
                assert(views(out@) =~= before.push(name@));
            }
        }
        i += 1;
    }
    let ghost found = out@;
    proof {
        lemma_no_items(all);
    }
    let r = sort(out);
    proof {
        assert(r@ == sorted(found));
    }
    r
}

impl Ranked for (String, ProviderProfile) {
    open spec fn ranks_before(self, other: Self) -> bool {
        text_before(self.0@, other.0@)
    }

    fn precedes(&self, other: &Self) -> (r: bool) {
        is_before(self.0.as_str(), other.0.as_str())
    }

    proof fn order_is_asymmetric(a: Self, b: Self) {
        text_order_is_total(a.0@, b.0@);
    }

    proof fn order_is_transitive(a: Self, b: Self, c: Self) {
        lemma_not_after_is_transitive(a.0@, b.0@, c.0@);
    }
}

/// The profiles that were loaded, by name.
pub fn list_providers(loaded: Vec<(String, ProviderProfile)>) -> (r: Vec<(String, ProviderProfile)>)
    ensures
        r@ == sorted(loaded@),
{
    sort(loaded)
}

/// The names of profiles.
pub open spec fn names_of(profiles: Seq<(String, ProviderProfile)>) -> Seq<Seq<char>> {
    profiles.map_values(|p: (String, ProviderProfile)| p.0@)
}

/// The names of the profiles, which are listed by name.
pub fn list_profile_names(profiles: &Vec<(String, ProviderProfile)>) -> (r: Vec<String>)
    ensures
        views(r@) == names_of(profiles@),
{
    let mut out: Vec<String> = Vec::new();
    let mut i: usize = 0;
    while i < profiles.len()
        invariant
            i <= profiles@.len(),
            out@.len() == i,
            forall|j: int| 0 <= j < i ==> (#[trigger] out@[j])@ == profiles@[j].0@,
        decreases profiles@.len() - i,
    {
        out.push(profiles[i].0.clone());
        i += 1;
    }
    proof {
        assert(views(out@) =~= names_of(profiles@));
    }
    out
}

proof fn lemma_same_rank(
    profiles: Seq<(String, ProviderProfile)>,
    names: Seq<String>,
    profile: (String, ProviderProfile),
    name: String,
)
    requires
        names_of(profiles) == views(names),
        profile.0@ == name@,
    ensures
        rank_of(profiles, profile) == rank_of(names, name),
        rank_of(names, name) <= names.len(),
    decreases names.len(),
{
    assert(names_of(profiles).len() == profiles.len());
    assert(views(names).len() == names.len());
    if names.len() > 0 {
        assert(names_of(profiles)[names.len() - 1] == profiles.last().0@);
        assert(views(names)[names.len() - 1] == names.last()@);
        assert(names_of(profiles.drop_last()) =~= names_of(profiles).drop_last());
        assert(views(names.drop_last()) =~= views(names).drop_last());
        lemma_same_rank(profiles.drop_last(), names.drop_last(), profile, name);
    }
}

/// Where one profile was loaded from each of the files, the names of the profiles are those
/// that the files have without being read, in the same order.
pub proof fn loaded_profiles_are_named_by_their_files(
    loaded: Seq<(String, ProviderProfile)>,
    found: Seq<String>,
)
    requires
        names_of(loaded) == views(found),
    ensures
        names_of(sorted(loaded)) == views(sorted(found)),
    decreases found.len(),
{
    assert(names_of(loaded).len() == loaded.len());
    assert(views(found).len() == found.len());
    if found.len() > 0 {
        let fewer = loaded.drop_last();
        let shorter = found.drop_last();
        assert(names_of(fewer) =~= names_of(loaded).drop_last());
        assert(views(shorter) =~= views(found).drop_last());
        loaded_profiles_are_named_by_their_files(fewer, shorter);
        assert(names_of(loaded)[found.len() - 1] == loaded.last().0@);
        assert(views(found)[found.len() - 1] == found.last()@);
        lemma_same_rank(sorted(fewer), sorted(shorter), loaded.last(), found.last());
        let at = rank_of(sorted(shorter), found.last()) as int;
        assert(names_of(sorted(fewer)).len() == sorted(fewer).len());
        assert(views(sorted(shorter)).len() == sorted(shorter).len());
        assert(names_of(sorted(loaded)) =~= names_of(sorted(fewer)).insert(at, loaded.last().0@));
        assert(views(sorted(found)) =~= views(sorted(shorter)).insert(at, found.last()@));
    } else {
        assert(names_of(sorted(loaded)) =~= views(sorted(found)));
    }
}

proof fn lemma_last_index(s: Seq<char>, c: char)
    ensures
        last_index(s, c) is Some ==> last_index(s, c)->0 < s.len() && s[last_index(s, c)->0 as int]
            == c,
    decreases s.len(),
{
    if s.len() > 0 && s.last() != c {
        lemma_last_index(s.drop_last(), c);
    }
}

proof fn lemma_file_of_profile(a: Seq<char>, b: Seq<char>)
    requires
        profile_of_file(a) is Some,
        profile_of_file(a) == profile_of_file(b),
    ensures
        a == b,
{
    lemma_last_index(a, '.');
    lemma_last_index(b, '.');
    assert(a =~= stem_of(a) + seq!['.'] + extension_of(a)->0);
    assert(b =~= stem_of(b) + seq!['.'] + extension_of(b)->0);
}

proof fn lemma_profiles_are_distinct(files: Seq<Seq<char>>)
    requires
        files.no_duplicates(),
    ensures
        profiles_in(files).no_duplicates(),
    decreases files.len(),
{
    let named = |file: Seq<char>| profile_of_file(file);
    reveal_with_fuel(Seq::filter_map, 1);
    if files.len() > 0 {
        let fewer = files.drop_last();
        lemma_profiles_are_distinct(fewer);
        let before = fewer.filter_map(named);
        if let Some(name) = named(files.last()) {
            if before.contains(name) {
                fewer.lemma_filter_map_contains(named, name);
                let other = choose|file: Seq<char>|
                    #![auto]
                    fewer.contains(file) && named(file) == Some(name);
                lemma_file_of_profile(other, files.last());
                let at = fewer.index_of(other);
                assert(files[at] == files[files.len() - 1]);
            }
            let after = before + seq![name];
            assert forall|i: int, j: int| 0 <= i < after.len() && 0 <= j < after.len() && i
                != j implies after[i] != after[j] by {
                if i < before.len() {
                    assert(before.contains(before[i]));
                }
                if j < before.len() {
                    assert(before.contains(before[j]));
                }
            }
        }
    }
}

/// The names that files of different names give are listed in ascending order, none twice.
pub proof fn profile_names_ascend(files: Seq<Seq<char>>, found: Seq<String>, i: int, j: int)
    requires
        files.no_duplicates(),
        views(found) == profiles_in(files),
        0 <= i < j < sorted(found).len(),
    ensures
        text_before(sorted(found)[i]@, sorted(found)[j]@),
{
    let listed = sorted(found);
    lemma_profiles_are_distinct(files);
    sorting_orders_and_keeps(found);
    assert(views(found).len() == found.len());
    assert(found.no_duplicates()) by {
        assert forall|a: int, b: int| 0 <= a < found.len() && 0 <= b < found.len() && a
            != b implies found[a] != found[b] by {
            assert(views(found)[a] == found[a]@);
            assert(views(found)[b] == found[b]@);
        }
    }
    found.lemma_multiset_has_no_duplicates();
    listed.lemma_multiset_has_no_duplicates_conv();
    listed.to_multiset_ensures();
    found.to_multiset_ensures();
    assert(listed.contains(listed[i]));
    assert(listed.contains(listed[j]));
    assert(listed.to_multiset().contains(listed[i]));
    assert(listed.to_multiset().contains(listed[j]));
    assert(found.contains(listed[i]));
    assert(found.contains(listed[j]));
    let a = found.index_of(listed[i]);
    let b = found.index_of(listed[j]);
    assert(views(found)[a] == listed[i]@);
    assert(views(found)[b] == listed[j]@);
    assert(!listed[j].ranks_before(listed[i]));
    text_order_is_total(listed[i]@, listed[j]@);
}

/// The first of the profiles that is for a provider.
pub open spec fn profile_for(
    profiles: Seq<(String, ProviderProfile)>,
    model_provider: Seq<char>,
) -> Option<int>
    decreases profiles.len(),
{
    if profiles.len() == 0 {
        None
    } else {
        match profile_for(profiles.drop_last(), model_provider) {
            Some(i) => Some(i),
            None => if profiles.last().1.provider.model_provider@ == model_provider {
                Some(profiles.len() - 1)
            } else {
                None
            },
        }
    }
}

/// The first of the profiles that is for a provider.
pub fn identify_current_provider(
    profiles: &Vec<(String, ProviderProfile)>,
    model_provider: &str,
) -> (r: Option<usize>)
    ensures
        match r {
            Some(i) => i < profiles@.len() && profile_for(profiles@, model_provider@) == Some(
                i as int,
            ) && profiles@[i as int].1.provider.model_provider@ == model_provider@,
            None => profile_for(profiles@, model_provider@) is None,
        },
{
    let mut i: usize = 0;
    while i < profiles.len()
        invariant
            i <= profiles@.len(),
            profile_for(profiles@.take(i as int), model_provider@) is None,
        decreases profiles@.len() - i,
    {
        proof {
            assert(profiles@.take(i + 1).drop_last() =~= profiles@.take(i as int));
            assert(profiles@.take(i + 1).last() == profiles@[i as int]);
        }
        if same_text(profiles[i].1.provider.model_provider.as_str(), model_provider) {
            proof {
                lemma_found_stays_found(profiles@, model_provider@, i + 1);
            }
            return Some(i);
        }
        i += 1;
    }
    proof {
        assert(profiles@.take(profiles@.len() as int) =~= profiles@);
    }
    None
}

proof fn lemma_found_stays_found(
    profiles: Seq<(String, ProviderProfile)>,
    model_provider: Seq<char>,
    n: int,
)
    requires
        0 <= n <= profiles.len(),
        profile_for(profiles.take(n), model_provider) is Some,
    ensures
        profile_for(profiles, model_provider) == profile_for(profiles.take(n), model_provider),
    decreases profiles.len() - n,
{
    if n < profiles.len() {
        assert(profiles.take(n + 1).drop_last() =~= profiles.take(n));
        lemma_found_stays_found(profiles, model_provider, n + 1);
    } else {
        assert(profiles.take(n) =~= profiles);
    }
}

/// Why there is no such profile.
pub fn profile_not_found(codex_dir: &str, name: &str) -> (r: String)
    ensures
        r@ == "Provider profile '"@ + name@ + "' not found at "@ + profile_place(codex_dir@, name@),
{
    let mut out = "Provider profile '".to_owned();
    out.push_str(name);
    out.push_str("' not found at ");
    out.push_str(profile_path(codex_dir, name).as_str());
    out
}

// ---------------------------------------------------------------------------
// Values by name
// ---------------------------------------------------------------------------

/// The values of a list by name; a later one replaces an earlier one.
pub open spec fn pair_map(pairs: Seq<(String, String)>) -> Map<Seq<char>, Seq<char>>
    decreases pairs.len(),
{
    if pairs.len() == 0 {
        Map::empty()
    } else {
        pair_map(pairs.drop_last()).insert(pairs.last().0@, pairs.last().1@)
    }
}

/// Whether no name occurs twice.
pub open spec fn names_are_distinct(pairs: Seq<(String, String)>) -> bool {
    forall|i: int, j: int|
        0 <= i < j < pairs.len() ==> (#[trigger] pairs[i]).0@ != (#[trigger] pairs[j]).0@
}

proof fn lemma_pair_map(pairs: Seq<(String, String)>)
    requires
        names_are_distinct(pairs),
    ensures
        forall|i: int|
            0 <= i < pairs.len() ==> pair_map(pairs).contains_key((#[trigger] pairs[i]).0@)
                && pair_map(pairs)[pairs[i].0@] == pairs[i].1@,
        forall|k: Seq<char>| #[trigger]
            pair_map(pairs).contains_key(k) ==> exists|i: int|
                0 <= i < pairs.len() && (#[trigger] pairs[i]).0@ == k,
    decreases pairs.len(),
{
    if pairs.len() > 0 {
        let before = pairs.drop_last();
        assert(names_are_distinct(before)) by {
            assert forall|i: int, j: int| 0 <= i < j < before.len() implies (#[trigger] before[i]).0@
                != (#[trigger] before[j]).0@ by {
                assert(pairs[i].0@ != pairs[j].0@);
            }
        }
        lemma_pair_map(before);
        assert forall|i: int| 0 <= i < pairs.len() implies pair_map(pairs).contains_key(
            (#[trigger] pairs[i]).0@,
        ) && pair_map(pairs)[pairs[i].0@] == pairs[i].1@ by {
            if i < pairs.len() - 1 {
                assert(before[i] == pairs[i]);
                assert(pairs[i].0@ != pairs[pairs.len() - 1].0@);
            }
        }
        assert forall|k: Seq<char>| #[trigger] pair_map(pairs).contains_key(k) implies exists|i: int|
            0 <= i < pairs.len() && (#[trigger] pairs[i]).0@ == k by {
            if k == pairs.last().0@ {
                assert(pairs[pairs.len() - 1].0@ == k);
            } else {
                assert(pair_map(before).contains_key(k));
                let i = choose|i: int| 0 <= i < before.len() && (#[trigger] before[i]).0@ == k;
                assert(pairs[i] == before[i]);
            }
        }
    }
}

proof fn lemma_same_map(pairs: Seq<(String, String)>, other: Map<Seq<char>, Seq<char>>)
    requires
        names_are_distinct(pairs),
        forall|i: int|
            0 <= i < pairs.len() ==> other.contains_key((#[trigger] pairs[i]).0@)
                && other[pairs[i].0@] == pairs[i].1@,
        forall|k: Seq<char>| #[trigger]
            other.contains_key(k) ==> exists|i: int|
                0 <= i < pairs.len() && (#[trigger] pairs[i]).0@ == k,
    ensures
        pair_map(pairs) == other,
{
    lemma_pair_map(pairs);
    assert forall|k: Seq<char>| pair_map(pairs).contains_key(k) <==> other.contains_key(k) by {
        if pair_map(pairs).contains_key(k) {
            let i = choose|i: int| 0 <= i < pairs.len() && (#[trigger] pairs[i]).0@ == k;
            assert(other.contains_key(pairs[i].0@));
        }
        if other.contains_key(k) {
            let i = choose|i: int| 0 <= i < pairs.len() && (#[trigger] pairs[i]).0@ == k;
            assert(pair_map(pairs).contains_key(pairs[i].0@));
        }
    }
    assert forall|k: Seq<char>| pair_map(pairs).contains_key(k) implies pair_map(pairs)[k]
        == other[k] by {
        let i = choose|i: int| 0 <= i < pairs.len() && (#[trigger] pairs[i]).0@ == k;
        assert(other[pairs[i].0@] == pairs[i].1@);
        assert(pair_map(pairs)[pairs[i].0@] == pairs[i].1@);
    }
    assert(pair_map(pairs) =~= other);
}

/// Sets the value of a name, in its place or as a new one.
pub fn set_pair(pairs: &mut Vec<(String, String)>, name: String, value: String)
    requires
        names_are_distinct(old(pairs)@),
    ensures
        names_are_distinct(final(pairs)@),
        pair_map(final(pairs)@) == pair_map(old(pairs)@).insert(name@, value@),
{
    let ghost before = pairs@;
    let ghost expected = pair_map(before).insert(name@, value@);
    proof {
        lemma_pair_map(before);
    }
    let mut i: usize = 0;
    while i < pairs.len()
        invariant
            pairs@ == before,
            i <= pairs@.len(),
            forall|j: int| 0 <= j < i ==> (#[trigger] before[j]).0@ != name@,
        ensures
            pairs@ == before,
            i <= pairs@.len(),
            i < pairs@.len() ==> before[i as int].0@ == name@,
            i == pairs@.len() ==> forall|j: int|
                0 <= j < before.len() ==> (#[trigger] before[j]).0@ != name@,
        decreases pairs@.len() - i,
    {
        if same_text(pairs[i].0.as_str(), name.as_str()) {
            break;
        }
        i += 1;
    }
    if i < pairs.len() {
        pairs.set(i, (name, value));
        proof {
            let after = pairs@;
            assert forall|a: int, b: int| 0 <= a < b < after.len() implies (#[trigger] after[a]).0@
                != (#[trigger] after[b]).0@ by {
                assert(before[a].0@ != before[b].0@);
            }
            assert forall|k: int| 0 <= k < after.len() implies expected.contains_key(
                (#[trigger] after[k]).0@,
            ) && expected[after[k].0@] == after[k].1@ by {
                assert(before[k].0@ == after[k].0@);
                if k < i {
                    assert(before[k].0@ != before[i as int].0@);
                } else if k > i {
                    assert(before[i as int].0@ != before[k].0@);
                }
            }
            assert forall|k: Seq<char>| #[trigger] expected.contains_key(k) implies exists|j: int|
                0 <= j < after.len() && (#[trigger] after[j]).0@ == k by {
                if k == name@ {
                    assert(after[i as int].0@ == k);
                } else {
                    let j = choose|j: int| 0 <= j < before.len() && (#[trigger] before[j]).0@ == k;
                    assert(after[j].0@ == k);
                }
            }
            lemma_same_map(after, expected);
        }
    } else {
        pairs.push((name, value));
        proof {
            assert(pairs@.drop_last() =~= before);
            let after = pairs@;
            assert forall|a: int, b: int| 0 <= a < b < after.len() implies (#[trigger] after[a]).0@
                != (#[trigger] after[b]).0@ by {
                assert(before[a].0@ != name@);
                if b < before.len() {
                    assert(before[a].0@ != before[b].0@);
                }
            }
        }
    }
}

} // verus!
