//! Commands on profiles: adding, removing, listing and completing them, and importing logins.
use vstd::prelude::*;

use crate::lists::{lemma_filter_map_step, lemma_filter_step, lemma_no_items};
use crate::migrate::{legacy_login};
use crate::migrate::profile_of_login_file;
use crate::provider::{names_are_distinct, pair_map};
use crate::provider::{set_pair, ProviderConfig, ProviderProfile};
use crate::sync::SyncState;
use crate::text::{list_contains, same_text, starts_with};
use crate::text::{opt_view, views};

verus! {

/// Whether a profile is the one in use.
pub open spec fn is_active(state: SyncState, name: Seq<char>) -> bool {
    opt_view(state.last_profile_name) == Some(name)
}

/// Whether a profile is the one in use.
pub fn is_active_profile(state: &SyncState, name: &str) -> (r: bool)
    ensures
        r == is_active(*state, name@),
{
    match &state.last_profile_name {
        Some(active) => same_text(active.as_str(), name),
        None => false,
    }
}

/// What the removal of a profile takes with it.
#[derive(Debug, Clone, Copy, PartialEq, Eq, Structural)]
pub struct Removal {
    pub removes_auth: bool,
    pub clears_state: bool,
}

/// What the removal of a profile takes with it; an error where the profile is in use and the
/// removal is not forced.
pub fn remove_profile(state: &SyncState, name: &str, force: bool, keep_auth: bool) -> (r: Result<
    Removal,
    String,
>)
    ensures
        if is_active(*state, name@) && !force {
            r is Err && r->Err_0@ == "Refusing to remove active profile '"@ + name@
                + "'. Switch to another profile first, or pass --force."@
        } else {
            r == Ok::<Removal, String>(
                Removal { removes_auth: !keep_auth, clears_state: is_active(*state, name@) },
            )
        },
{
    let active = is_active_profile(state, name);
    if active && !force {
        let mut out = "Refusing to remove active profile '".to_owned();
        out.push_str(name);
        out.push_str("'. Switch to another profile first, or pass --force.");
        return Err(out);
    }
    Ok(Removal { removes_auth: !keep_auth, clears_state: active })
}

/// The line on a profile in a list.
pub open spec fn listed(name: Seq<char>, state: SyncState) -> Seq<char> {
    "  - "@ + name + if is_active(state, name) {
        " (active)"@
    } else {
        ""@
    }
}

/// The line on a profile in a list.
pub fn list_line(name: &str, state: &SyncState) -> (r: String)
    ensures
        r@ == listed(name@, *state),
{
    let mut out = "  - ".to_owned();
    out.push_str(name);
    if is_active_profile(state, name) {
        out.push_str(" (active)");
    } else {
        out.push_str("");
    }
    out
}

/// The names that begin with a prefix.
pub fn completion_candidates(names: &Vec<String>, prefix: &str) -> (r: Vec<String>)
    ensures
        r@ == names@.filter(|name: String| prefix@.is_prefix_of(name@)),
{
    let ghost pred = |name: String| prefix@.is_prefix_of(name@);
    let mut out: Vec<String> = Vec::new();
    let mut i: usize = 0;
    proof {
        lemma_no_items(names@);
    }
    while i < names.len()
        invariant
            i <= names@.len(),
            pred == (|name: String| prefix@.is_prefix_of(name@)),
            out@ == names@.take(i as int).filter(pred),
        decreases names@.len() - i,
    {
        proof {
            lemma_filter_step(names@, i as int, pred);
        }
        if starts_with(names[i].as_str(), prefix) {
            out.push(names[i].clone());
        }
        i += 1;
    }
    proof {
        lemma_no_items(names@);
    }
    out
}

/// An earlier login file that can be imported.
#[derive(Debug, PartialEq, Eq)]
pub struct AuthImport {
    pub file: String,
    pub profile: String,
    /// Whether there is such a profile; the file is skipped where there is none.
    pub known: bool,
}

/// An import as a mathematical value.
#[verifier::ext_equal]
pub struct Import {
    pub file: Seq<char>,
    pub profile: Seq<char>,
    pub known: bool,
}

impl View for AuthImport {
    type V = Import;

    open spec fn view(&self) -> Import {
        Import { file: self.file@, profile: self.profile@, known: self.known }
    }
}

/// The imports that a list stands for.
pub open spec fn import_views(imports: Seq<AuthImport>) -> Seq<Import> {
    imports.map_values(|i: AuthImport| i@)
}

/// The import that a file makes.
pub open spec fn import_of(file: Seq<char>, profiles: Seq<Seq<char>>) -> Option<Import> {
    match legacy_login(file) {
        Some(profile) => Some(Import { file, profile, known: profiles.contains(profile) }),
        None => None,
    }
}

/// The earlier login files among the files of the home directory, in the order of the files.
pub fn import_all_auth(files: &Vec<String>, profiles: &Vec<String>) -> (r: Vec<AuthImport>)
    ensures
        import_views(r@) == views(files@).filter_map(
            |file: Seq<char>| import_of(file, views(profiles@)),
        ),
{
    let ghost all = views(files@);
    let ghost made = |file: Seq<char>| import_of(file, views(profiles@));
    let mut out: Vec<AuthImport> = Vec::new();
    let mut i: usize = 0;
    proof {
        lemma_no_items(all);
        reveal_with_fuel(Seq::filter_map, 1);
        assert(import_views(out@) =~= all.take(0).filter_map(made));
    }
    while i < files.len()
        invariant
            all == views(files@),
            made == (|file: Seq<char>| import_of(file, views(profiles@))),
            i <= files@.len(),
            import_views(out@) == all.take(i as int).filter_map(made),
        decreases files@.len() - i,
    {
        proof {
            assert(all[i as int] == files@[i as int]@);
            lemma_filter_map_step(all, i as int, made);
        }
        let ghost before = import_views(out@);
        if let Some(profile) = profile_of_login_file(files[i].as_str()) {
            let known = list_contains(profiles, profile.as_str());
            let import = AuthImport { file: files[i].clone(), profile, known };
            let ghost added = import@;
            out.push(import);
            proof {
                assert(import_views(out@) =~= before.push(added));
            }
        }
        i += 1;
    }
    proof {
        lemma_no_items(all);
    }
    out
}

/// What a new profile is asked for.
pub struct NewProfile {
    pub name: String,
    pub model_provider: String,
    pub model: String,
    pub base_url: Option<String>,
    pub api_key: Option<String>,
    pub wire_api: Option<String>,
    pub context_window: Option<u64>,
    pub auto_compact_limit: Option<u64>,
}

/// Whether a profile is the one that was asked for: its key as its only value, and the
/// standard interface where none is named.
pub open spec fn is_new_profile(profile: ProviderProfile, asked: NewProfile) -> bool {
    let p = profile.provider;
    &&& p.model_provider@ == asked.model_provider@
    &&& p.name@ == asked.name@
    &&& p.model@ == asked.model@
    &&& opt_view(p.base_url) == opt_view(asked.base_url)
    &&& opt_view(p.wire_api) == Some(
        match asked.wire_api {
            Some(api) => api@,
            None => "responses"@,
        },
    )
    &&& p.requires_openai_auth is None
    &&& p.model_context_window == asked.context_window
    &&& p.model_auto_compact_token_limit == asked.auto_compact_limit
    &&& p.model_reasoning_effort is None
    &&& p.disable_response_storage is None
    &&& names_are_distinct(profile.auth@)
    &&& pair_map(profile.auth@) == (match asked.api_key {
        Some(key) => Map::<Seq<char>, Seq<char>>::empty().insert("OPENAI_API_KEY"@, key@),
        None => Map::<Seq<char>, Seq<char>>::empty(),
    })
    &&& profile.config_overrides is None
}

/// The profile that was asked for.
pub fn new_profile(asked: NewProfile) -> (r: ProviderProfile)
    ensures
        is_new_profile(r, asked),
{
    let mut auth: Vec<(String, String)> = Vec::new();
    proof {
        assert(pair_map(auth@) =~= Map::<Seq<char>, Seq<char>>::empty());
    }
    if let Some(key) = asked.api_key {
        set_pair(&mut auth, "OPENAI_API_KEY".to_owned(), key);
    }
    let wire_api = match asked.wire_api {
        Some(api) => Some(api),
        None => Some("responses".to_owned()),
    };
    ProviderProfile {
        provider: ProviderConfig {
            model_provider: asked.model_provider,
            name: asked.name,
            model: asked.model,
            base_url: asked.base_url,
            wire_api,
            requires_openai_auth: None,
            model_context_window: asked.context_window,
            model_auto_compact_token_limit: asked.auto_compact_limit,
            model_reasoning_effort: None,
            disable_response_storage: None,
        },
        auth,
        config_overrides: None,
    }
}

} // verus!
