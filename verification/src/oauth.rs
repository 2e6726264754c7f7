//! Logging in: checking what a login gave, naming a profile for it, and making that profile.
use vstd::prelude::*;

use crate::auth::{auth_snapshot_path, snapshot_place};
use crate::json::{json_of_text, JsonTree};
use crate::json::{parse, Json, JsonObject};
use crate::migrate::{login_note, make_login_note};
use crate::provider::{names_are_distinct, pair_map};
use crate::provider::{set_pair, ProviderConfig, ProviderProfile};
use crate::text::{
    contains_char, decimal_text, list_contains, same_text, trim, CharClass,
};
use crate::text::{decimal, decimal_notation_is_unique, opt_view, trimmed, views};

verus! {

/// The provider of a native login.
pub open spec fn default_provider() -> Seq<char> {
    "openai"@
}

/// The model of a native login.
pub open spec fn default_model() -> Seq<char> {
    "gpt-5.5"@
}

/// The context window of a native login.
pub const DEFAULT_CONTEXT_WINDOW: u64 = 1000000;

/// Where the context of a native login is compacted.
pub const DEFAULT_AUTO_COMPACT_LIMIT: u64 = 920000;

/// What a login is asked for.
#[derive(Debug)]
pub struct LoginOptions {
    pub name: Option<String>,
    pub model: Option<String>,
    pub model_provider: Option<String>,
    pub switch_after: bool,
}

/// A login that was saved.
#[derive(Debug, PartialEq, Eq)]
pub struct SavedLogin {
    pub profile_name: String,
    pub auth_snapshot: String,
}

/// Why a login is not saved.
#[derive(Debug, Clone, Copy, PartialEq, Eq, Structural)]
pub enum LoginError {
    /// The login wrote nothing.
    NoLogin,
    /// What the login wrote is no JSON document.
    UnreadableLogin,
    /// What the login wrote holds no tokens of a ChatGPT account.
    NoTokens,
    /// The profile name is empty.
    EmptyName,
    /// The profile name would lead to another directory.
    NameWithSeparators,
}

impl LoginError {
    /// The error in words.
    pub open spec fn words(self) -> Seq<char> {
        match self {
            LoginError::NoLogin => "Codex login finished, but no auth.json was written"@,
            LoginError::UnreadableLogin => "failed to parse auth.json"@,
            LoginError::NoTokens => "login did not produce ChatGPT auth tokens"@,
            LoginError::EmptyName => "profile name cannot be empty"@,
            LoginError::NameWithSeparators => "profile name cannot contain path separators"@,
        }
    }

    /// The error in words.
    pub fn message(&self) -> (r: String)
        ensures
            r@ == self.words(),
    {
        match self {
            LoginError::NoLogin => "Codex login finished, but no auth.json was written".to_owned(),
            LoginError::UnreadableLogin => "failed to parse auth.json".to_owned(),
            LoginError::NoTokens => "login did not produce ChatGPT auth tokens".to_owned(),
            LoginError::EmptyName => "profile name cannot be empty".to_owned(),
            LoginError::NameWithSeparators => "profile name cannot contain path separators".to_owned(),
        }
    }
}

// ---------------------------------------------------------------------------
// Names
// ---------------------------------------------------------------------------

/// Whether a name stays within the profile directory.
pub open spec fn is_plain_name(name: Seq<char>) -> bool {
    !name.contains('/') && !name.contains('\\') && name != "."@ && name != ".."@
}

/// The profile name that a text gives: without outer white space, not empty, and within the
/// profile directory.
pub open spec fn profile_name_of(text: Seq<char>) -> Result<Seq<char>, LoginError> {
    let name = trimmed(text, CharClass::Space);
    if name.len() == 0 {
        Err(LoginError::EmptyName)
    } else if !is_plain_name(name) {
        Err(LoginError::NameWithSeparators)
    } else {
        Ok(name)
    }
}

/// The profile name that a text gives.
pub fn validate_profile_name(name: &str) -> (r: Result<String, LoginError>)
    ensures
        match r {
            Ok(made) => profile_name_of(name@) == Ok::<Seq<char>, LoginError>(made@),
            Err(error) => profile_name_of(name@) == Err::<Seq<char>, LoginError>(error),
        },
{
    let made = trim(name, CharClass::Space);
    if made.as_str().is_empty() {
        return Err(LoginError::EmptyName);
    }
    if contains_char(made.as_str(), '/') || contains_char(made.as_str(), '\\') || same_text(
        made.as_str(),
        ".",
    ) || same_text(made.as_str(), "..") {
        return Err(LoginError::NameWithSeparators);
    }
    Ok(made)
}

/// A name with a number behind it.
pub open spec fn numbered(prefix: Seq<char>, n: nat) -> Seq<char> {
    prefix.push('_') + decimal(n)
}

/// Whether a name is the next free one with a prefix: the prefix itself, or else the prefix
/// with the least number that makes it free.
pub open spec fn is_next_name(name: Seq<char>, prefix: Seq<char>, existing: Seq<Seq<char>>) -> bool {
    if !existing.contains(prefix) {
        name == prefix
    } else {
        exists|n: nat|
            {
                &&& n >= 1
                &&& name == #[trigger] numbered(prefix, n)
                &&& !existing.contains(name)
                &&& forall|m: nat|
                    1 <= m < n ==> existing.contains(#[trigger] numbered(prefix, m))
            }
    }
}

proof fn lemma_numbers_tell_names_apart(prefix: Seq<char>, a: nat, b: nat)
    requires
        numbered(prefix, a) == numbered(prefix, b),
    ensures
        a == b,
{
    let n = prefix.len() as int + 1;
    assert(numbered(prefix, a).skip(n) =~= decimal(a));
    assert(numbered(prefix, b).skip(n) =~= decimal(b));
    decimal_notation_is_unique(a, b);
}

/// Not all of one more numbered names than there are names can be taken.
proof fn lemma_a_number_is_free(prefix: Seq<char>, existing: Seq<Seq<char>>, count: nat)
    requires
        forall|m: nat| 1 <= m <= count ==> existing.contains(#[trigger] numbered(prefix, m)),
    ensures
        count <= existing.len(),
{
    let names = Seq::new(count, |i: int| numbered(prefix, (i + 1) as nat));
    assert(names.no_duplicates()) by {
        assert forall|i: int, j: int| 0 <= i < names.len() && 0 <= j < names.len() && i
            != j implies names[i] != names[j] by {
            if names[i] == names[j] {
                lemma_numbers_tell_names_apart(prefix, (i + 1) as nat, (j + 1) as nat);
            }
        }
    }
    names.unique_seq_to_set();
    assert(names.to_set().subset_of(existing.to_set())) by {
        assert forall|name: Seq<char>| names.to_set().contains(name) implies existing.to_set().contains(
            name,
        ) by {
            let i = choose|i: int| 0 <= i < names.len() && names[i] == name;
            assert(existing.contains(numbered(prefix, (i + 1) as nat)));
        }
    }
    existing.lemma_cardinality_of_set();
    vstd::set_lib::lemma_len_subset(names.to_set(), existing.to_set());
}

/// The next free profile name with a prefix.
pub fn next_profile_name(prefix: &str, existing: &Vec<String>) -> (r: String)
    requires
        existing@.len() < u64::MAX,
    ensures
        is_next_name(r@, prefix@, views(existing@)),
        !views(existing@).contains(r@),
{
    if !list_contains(existing, prefix) {
        return prefix.to_owned();
    }
    let ghost taken = views(existing@);
    let mut index: u64 = 1;
    loop
        invariant
            taken == views(existing@),
            taken.len() == existing@.len(),
            existing@.len() < u64::MAX,
            taken.contains(prefix@),
            1 <= index <= existing@.len() + 1,
            forall|m: nat| 1 <= m < index ==> taken.contains(#[trigger] numbered(prefix@, m)),
        decreases existing@.len() + 1 - index,
    {
        let mut candidate = prefix.to_owned();
        candidate.push('_');
        candidate.push_str(decimal_text(index).as_str());
        proof {
            assert(candidate@ == numbered(prefix@, index as nat));
        }
        if !list_contains(existing, candidate.as_str()) {
            return candidate;
        }
        proof {
            assert forall|m: nat| 1 <= m <= index implies taken.contains(
                #[trigger] numbered(prefix@, m),
            ) by {
                if m == index {
                }
            }
            lemma_a_number_is_free(prefix@, taken, index as nat);
        }
        index += 1;
    }
}

// ---------------------------------------------------------------------------
// Logins
// ---------------------------------------------------------------------------

/// Whether a document is the login of a ChatGPT account, with its tokens.
pub open spec fn is_chatgpt_login(login: JsonTree) -> bool {
    login.text_at("auth_mode"@) == Some("chatgpt"@) && login.get("tokens"@) is Some && login.get(
        "tokens"@,
    )->0.members() is Some
}

/// Whether a content is the login of a ChatGPT account, with its tokens.
pub fn validate_chatgpt_auth(content: &str) -> (r: Result<(), LoginError>)
    ensures
        r == (match json_of_text(content@) {
            None => Err::<(), LoginError>(LoginError::UnreadableLogin),
            Some(login) => if is_chatgpt_login(login) {
                Ok::<(), LoginError>(())
            } else {
                Err::<(), LoginError>(LoginError::NoTokens)
            },
        }),
{
    let login = match parse(content) {
        Some(login) => login,
        None => {
            return Err(LoginError::UnreadableLogin);
        },
    };
    let chatgpt = match login.text_at("auth_mode") {
        Some(mode) => same_text(mode.as_str(), "chatgpt"),
        None => false,
    };
    let tokens = match login.get("tokens") {
        Some(tokens) => tokens.as_object().is_some(),
        None => false,
    };
    if chatgpt && tokens {
        Ok(())
    } else {
        Err(LoginError::NoTokens)
    }
}

/// The values with the text of a member, where it is one.
pub open spec fn with_text(
    values: Map<Seq<char>, Seq<char>>,
    login: JsonTree,
    key: Seq<char>,
) -> Map<Seq<char>, Seq<char>> {
    match login.text_at(key) {
        Some(text) => values.insert(key, text),
        None => values,
    }
}

/// What a profile shows of a login: its mode, its last refresh, and where it is kept.
pub open spec fn login_summary(login: JsonTree, profile: Seq<char>) -> Map<Seq<char>, Seq<char>> {
    with_text(with_text(Map::empty(), login, "auth_mode"@), login, "last_refresh"@).insert(
        "_note"@,
        login_note(profile),
    )
}

fn set_text(pairs: &mut Vec<(String, String)>, login: &JsonObject, key: &str)
    requires
        names_are_distinct(old(pairs)@),
    ensures
        names_are_distinct(final(pairs)@),
        pair_map(final(pairs)@) == with_text(
            pair_map(old(pairs)@),
            JsonTree::Object(login@),
            key@,
        ),
{
    if let Some(Json::Text(text)) = login.get(key) {
        set_pair(pairs, key.to_owned(), text.clone());
    }
}

/// What a profile shows of a login; an error where it holds no object.
pub fn summarize_auth(content: &str, profile_name: &str) -> (r: Result<
    Vec<(String, String)>,
    LoginError,
>)
    ensures
        match json_of_text(content@) {
            Some(JsonTree::Object(m)) => r is Ok && names_are_distinct(r->Ok_0@) && pair_map(
                r->Ok_0@,
            ) == login_summary(JsonTree::Object(m), profile_name@),
            _ => r == Err::<Vec<(String, String)>, LoginError>(LoginError::UnreadableLogin),
        },
{
    match parse(content) {
        Some(Json::Object(login)) => {
            let mut pairs: Vec<(String, String)> = Vec::new();
            proof {
                assert(pair_map(pairs@) =~= Map::<Seq<char>, Seq<char>>::empty());
            }
            set_text(&mut pairs, &login, "auth_mode");
            set_text(&mut pairs, &login, "last_refresh");
            set_pair(&mut pairs, "_note".to_owned(), make_login_note(profile_name));
            Ok(pairs)
        },
        _ => Err(LoginError::UnreadableLogin),
    }
}

/// The text, or another one where there is none.
pub open spec fn text_or(text: Option<String>, other: Seq<char>) -> Seq<char> {
    match text {
        Some(text) => text@,
        None => other,
    }
}

fn take_or(text: Option<String>, other: &str) -> (r: String)
    ensures
        r@ == text_or(text, other@),
{
    match text {
        Some(text) => text,
        None => other.to_owned(),
    }
}

/// Whether a profile is the one of a native login.
pub open spec fn is_login_profile(
    profile: ProviderProfile,
    name: Seq<char>,
    options: LoginOptions,
    login: JsonTree,
) -> bool {
    let p = profile.provider;
    &&& p.model_provider@ == text_or(options.model_provider, default_provider())
    &&& p.name@ == name
    &&& p.model@ == text_or(options.model, default_model())
    &&& p.base_url is None
    &&& p.wire_api is None
    &&& p.requires_openai_auth is None
    &&& p.model_context_window == Some(DEFAULT_CONTEXT_WINDOW)
    &&& p.model_auto_compact_token_limit == Some(DEFAULT_AUTO_COMPACT_LIMIT)
    &&& opt_view(p.model_reasoning_effort) == Some("high"@)
    &&& p.disable_response_storage == Some(true)
    &&& names_are_distinct(profile.auth@)
    &&& pair_map(profile.auth@) == login_summary(login, name)
    &&& profile.config_overrides is None
}

/// Why a login is not saved, where it is not.
pub open spec fn login_refusal(content: Option<&str>, name: Option<String>) -> Option<LoginError> {
    match content {
        None => Some(LoginError::NoLogin),
        Some(text) => match json_of_text(text@) {
            None => Some(LoginError::UnreadableLogin),
            Some(login) => if !is_chatgpt_login(login) {
                Some(LoginError::NoTokens)
            } else {
                match name {
                    Some(name) => match profile_name_of(name@) {
                        Err(error) => Some(error),
                        Ok(_) => None,
                    },
                    None => None,
                }
            },
        },
    }
}

/// The profile for a login, with the place where the login is kept: named as asked for, or
/// with the next free name. The content is `None` where the login wrote nothing.
pub fn login_and_save(
    options: LoginOptions,
    content: Option<&str>,
    existing: &Vec<String>,
    codex_dir: &str,
) -> (r: Result<(SavedLogin, ProviderProfile), LoginError>)
    requires
        existing@.len() < u64::MAX,
    ensures
        match login_refusal(content, options.name) {
            Some(error) => r == Err::<(SavedLogin, ProviderProfile), LoginError>(error),
            None => {
                &&& r is Ok
                &&& match options.name {
                    Some(name) => Ok::<Seq<char>, LoginError>((r->Ok_0).0.profile_name@)
                        == profile_name_of(name@),
                    None => is_next_name(
                        (r->Ok_0).0.profile_name@,
                        default_provider(),
                        views(existing@),
                    ),
                }
                &&& (r->Ok_0).0.auth_snapshot@ == snapshot_place(
                    codex_dir@,
                    (r->Ok_0).0.profile_name@,
                )
                &&& is_login_profile(
                    (r->Ok_0).1,
                    (r->Ok_0).0.profile_name@,
                    options,
                    json_of_text(content->0@)->0,
                )
            },
        },
{
    let text = match content {
        Some(text) => text,
        None => {
            return Err(LoginError::NoLogin);
        },
    };
    if let Err(error) = validate_chatgpt_auth(text) {
        return Err(error);
    }
    let profile_name = match &options.name {
        Some(name) => match validate_profile_name(name.as_str()) {
            Ok(name) => name,
            Err(error) => {
                return Err(error);
            },
        },
        None => next_profile_name("openai", existing),
    };
    let auth = match summarize_auth(text, profile_name.as_str()) {
        Ok(auth) => auth,
        Err(error) => {
            return Err(error);
        },
    };
    let profile = ProviderProfile {
        provider: ProviderConfig {
            model_provider: take_or(options.model_provider, "openai"),
            name: profile_name.clone(),
            model: take_or(options.model, "gpt-5.5"),
            base_url: None,
            wire_api: None,
            requires_openai_auth: None,
            model_context_window: Some(DEFAULT_CONTEXT_WINDOW),
            model_auto_compact_token_limit: Some(DEFAULT_AUTO_COMPACT_LIMIT),
            model_reasoning_effort: Some("high".to_owned()),
            disable_response_storage: Some(true),
        },
        auth,
        config_overrides: None,
    };
    let auth_snapshot = auth_snapshot_path(codex_dir, profile_name.as_str());
    Ok((SavedLogin { profile_name, auth_snapshot }, profile))
}

} // verus!
