//! Stored logins: where they are kept, and which of them are the same.
use vstd::prelude::*;

use crate::json::{json_of_bytes, json_of_text, json_pretty_text, JsonTree};
use crate::json::{parse, parse_bytes, Json, JsonObject};
use crate::lists::{lemma_filter_map_step, lemma_no_items};
use crate::order::{
    in_order, list_before, list_order_is_total, list_order_is_transitive, sorted,
    sorting_orders_and_keeps,
};
use crate::order::{is_before, sort, Ranked};
use crate::paths::{join_path, path_below};
use crate::provider::{providers_dir, providers_place};
use crate::text::{join, same_text};
use crate::text::{joined, opt_view, views};

verus! {

// ---------------------------------------------------------------------------
// Places
// ---------------------------------------------------------------------------

/// The file of the login in use.
pub fn auth_json_path(codex_dir: &str) -> (r: String)
    ensures
        r@ == path_below(codex_dir@, "auth.json"@),
{
    join_path(codex_dir, "auth.json")
}

/// The file of the login of a profile.
pub open spec fn snapshot_place(codex_dir: Seq<char>, name: Seq<char>) -> Seq<char> {
    path_below(providers_place(codex_dir), name + ".auth.json"@)
}

/// The file of the login of a profile.
pub fn auth_snapshot_path(codex_dir: &str, profile_name: &str) -> (r: String)
    ensures
        r@ == snapshot_place(codex_dir@, profile_name@),
{
    let mut file = profile_name.to_owned();
    file.push_str(".auth.json");
    join_path(providers_dir(codex_dir).as_str(), file.as_str())
}

// ---------------------------------------------------------------------------
// Logins
// ---------------------------------------------------------------------------

/// The members of a login; none where there is no file, and an error where it holds no object.
pub fn read_auth(content: Option<&str>) -> (r: Option<JsonObject>)
    ensures
        match content {
            None => r is Some && r->0@ == Map::<Seq<char>, JsonTree>::empty(),
            Some(text) => match json_of_text(text@) {
                Some(JsonTree::Object(m)) => r is Some && r->0@ == m,
                _ => r is None,
            },
        },
{
    match content {
        None => Some(JsonObject::new()),
        Some(text) => match parse(text) {
            Some(Json::Object(members)) => Some(members),
            _ => None,
        },
    }
}

/// The provider that a login belongs to, as far as it tells.
pub fn detect_auth_provider(auth: &JsonObject) -> (r: Option<String>)
    ensures
        opt_view(r) == (if JsonTree::Object(auth@).text_at("auth_mode"@) == Some("chatgpt"@) {
            Some("openai"@)
        } else {
            None
        }),
{
    if let Some(Json::Text(mode)) = auth.get("auth_mode") {
        if same_text(mode.as_str(), "chatgpt") {
            return Some("openai".to_owned());
        }
    }
    None
}

/// The members that a list of simple values makes; a later value replaces an earlier one.
pub open spec fn auth_members(pairs: Seq<(String, String)>) -> Map<Seq<char>, JsonTree>
    decreases pairs.len(),
{
    if pairs.len() == 0 {
        Map::empty()
    } else {
        auth_members(pairs.drop_last()).insert(pairs.last().0@, JsonTree::Text(pairs.last().1@))
    }
}

/// The content of a login that is made of the simple values of a profile.
pub fn auth_content(pairs: &Vec<(String, String)>) -> (r: String)
    ensures
        r@ == json_pretty_text(JsonTree::Object(auth_members(pairs@))).push('\n'),
{
    let mut members = JsonObject::new();
    let mut i: usize = 0;
    while i < pairs.len()
        invariant
            i <= pairs@.len(),
            members@ == auth_members(pairs@.take(i as int)),
        decreases pairs@.len() - i,
    {
        proof {
            assert(pairs@.take(i + 1).drop_last() =~= pairs@.take(i as int));
            assert(pairs@.take(i + 1).last() == pairs@[i as int]);
        }
        members.insert(pairs[i].0.clone(), Json::Text(pairs[i].1.clone()));
        i += 1;
    }
    proof {
        assert(pairs@.take(pairs@.len() as int) =~= pairs@);
    }
    let mut out = Json::Object(members).render_pretty();
    out.push('\n');
    out
}

/// What a switch writes as the login in use: the stored one of the profile where there is
/// one, or else one made of its simple values.
pub fn write_auth(snapshot: Option<Vec<u8>>, pairs: &Vec<(String, String)>) -> (r: AuthSource)
    ensures
        match snapshot {
            Some(bytes) => r is Snapshot && r->Snapshot_0@ == bytes@,
            None => r is Built && r->Built_0@ == json_pretty_text(
                JsonTree::Object(auth_members(pairs@)),
            ).push('\n'),
        },
{
    match snapshot {
        Some(bytes) => AuthSource::Snapshot(bytes),
        None => AuthSource::Built(auth_content(pairs)),
    }
}

/// The login that a switch writes.
#[derive(Debug, PartialEq, Eq)]
pub enum AuthSource {
    /// A stored login, byte for byte.
    Snapshot(Vec<u8>),
    /// A login made of simple values.
    Built(String),
}

// ---------------------------------------------------------------------------
// Duplicates
// ---------------------------------------------------------------------------

/// Whether bytes are the login of a ChatGPT account.
pub open spec fn is_chatgpt_login(content: Seq<u8>) -> bool {
    match json_of_bytes(content) {
        Some(tree) => tree.text_at("auth_mode"@) == Some("chatgpt"@),
        None => false,
    }
}

/// Whether bytes are the login of a ChatGPT account.
pub fn is_chatgpt_auth_snapshot(content: &[u8]) -> (r: bool)
    ensures
        r == is_chatgpt_login(content@),
{
    match parse_bytes(content) {
        Some(tree) => match tree.text_at("auth_mode") {
            Some(mode) => same_text(mode.as_str(), "chatgpt"),
            None => false,
        },
        None => false,
    }
}

/// Profiles that share one login.
#[derive(Debug, PartialEq, Eq)]
pub struct DuplicateAuthSnapshot {
    pub profiles: Vec<String>,
}

impl Ranked for DuplicateAuthSnapshot {
    open spec fn ranks_before(self, other: Self) -> bool {
        list_before(views(self.profiles@), views(other.profiles@))
    }

    fn precedes(&self, other: &Self) -> (r: bool) {
        list_is_before(&self.profiles, &other.profiles)
    }

    proof fn order_is_asymmetric(a: Self, b: Self) {
        list_order_is_total(views(a.profiles@), views(b.profiles@));
    }

    proof fn order_is_transitive(a: Self, b: Self, c: Self) {
        let x = views(a.profiles@);
        let y = views(b.profiles@);
        let z = views(c.profiles@);
        list_order_is_total(x, y);
        list_order_is_total(y, z);
        list_order_is_total(x, z);
        if list_before(z, x) && x != y && y != z {
            list_order_is_transitive(x, y, z);
        }
    }
}

fn list_is_before(a: &Vec<String>, b: &Vec<String>) -> (r: bool)
    ensures
        r == list_before(views(a@), views(b@)),
{
    let ghost x = views(a@);
    let ghost y = views(b@);
    let mut i: usize = 0;
    proof {
        assert(x.skip(0) =~= x);
        assert(y.skip(0) =~= y);
    }
    while i < a.len() && i < b.len()
        invariant
            x == views(a@),
            y == views(b@),
            i <= a@.len(),
            i <= b@.len(),
            list_before(x, y) == list_before(x.skip(i as int), y.skip(i as int)),
        decreases a@.len() - i,
    {
        proof {
            assert(x.skip(i as int)[0] == a@[i as int]@);
            assert(y.skip(i as int)[0] == b@[i as int]@);
            assert(x.skip(i as int).drop_first() =~= x.skip(i + 1));
            assert(y.skip(i as int).drop_first() =~= y.skip(i + 1));
        }
        if !same_text(a[i].as_str(), b[i].as_str()) {
            return is_before(a[i].as_str(), b[i].as_str());
        }
        i += 1;
    }
    i < b.len()
}

/// A stored login with the name of its profile.
pub struct StoredLogin {
    pub profile: String,
    pub content: Vec<u8>,
}

/// The profile of a login, where it has the given content.
pub open spec fn profile_with(login: StoredLogin, content: Seq<u8>) -> Option<String> {
    if login.content@ == content {
        Some(login.profile)
    } else {
        None
    }
}

/// The profiles whose login has the given content.
pub open spec fn profiles_with(logins: Seq<StoredLogin>, content: Seq<u8>) -> Seq<String> {
    logins.filter_map(|login: StoredLogin| profile_with(login, content))
}

/// Whether a content is a ChatGPT login that several profiles share.
pub open spec fn is_shared(logins: Seq<StoredLogin>, content: Seq<u8>) -> bool {
    is_chatgpt_login(content) && profiles_with(logins, content).len() >= 2
}

/// Whether a group is that of a content.
pub open spec fn is_group_of(
    group: DuplicateAuthSnapshot,
    logins: Seq<StoredLogin>,
    content: Seq<u8>,
) -> bool {
    group.profiles@ == sorted(profiles_with(logins, content))
}

fn same_bytes(a: &Vec<u8>, b: &Vec<u8>) -> (r: bool)
    ensures
        r == (a@ == b@),
{
    if a.len() != b.len() {
        return false;
    }
    let mut i: usize = 0;
    while i < a.len()
        invariant
            a@.len() == b@.len(),
            i <= a@.len(),
            forall|j: int| 0 <= j < i ==> a@[j] == b@[j],
        decreases a@.len() - i,
    {
        if a[i] != b[i] {
            return false;
        }
        i += 1;
    }
    proof {
        assert(a@ =~= b@);
    }
    true
}

fn collect_profiles(logins: &Vec<StoredLogin>, content: &Vec<u8>) -> (r: Vec<String>)
    ensures
        r@ == profiles_with(logins@, content@),
{
    let ghost made = |login: StoredLogin| profile_with(login, content@);
    let mut out: Vec<String> = Vec::new();
    let mut i: usize = 0;
    proof {
        lemma_no_items(logins@);
        reveal_with_fuel(Seq::filter_map, 1);
        assert(out@ =~= logins@.take(0).filter_map(made));
    }
    while i < logins.len()
        invariant
            made == (|login: StoredLogin| profile_with(login, content@)),
            i <= logins@.len(),
            out@ == logins@.take(i as int).filter_map(made),
        decreases logins@.len() - i,
    {
        proof {
            lemma_filter_map_step(logins@, i as int, made);
        }
        if same_bytes(&logins[i].content, content) {
            out.push(logins[i].profile.clone());
        }
        i += 1;
    }
    proof {
        lemma_no_items(logins@);
    }
    out
}

fn occurs_before(logins: &Vec<StoredLogin>, at: usize) -> (r: bool)
    requires
        at < logins@.len(),
    ensures
        r == exists|j: int| 0 <= j < at && (#[trigger] logins@[j]).content@ == logins@[at as int].content@,
{
    let mut i: usize = 0;
    while i < at
        invariant
            i <= at < logins@.len(),
            forall|j: int|
                0 <= j < i ==> (#[trigger] logins@[j]).content@ != logins@[at as int].content@,
        decreases at - i,
    {
        if same_bytes(&logins[i].content, &logins[at].content) {
            return true;
        }
        i += 1;
    }
    false
}

/// The groups of profiles that share a ChatGPT login byte for byte, each in order and all of
/// them in order: such a login can be refreshed for one of them only.
///
/// Every group belongs to a shared login, every shared login has a group, and no login has two.
pub fn find_duplicate_chatgpt_auth_snapshots(logins: &Vec<StoredLogin>) -> (r: Vec<
    DuplicateAuthSnapshot,
>)
    ensures
        in_order(r@),
        exists|contents: Seq<Seq<u8>>|
            {
                &&& contents.len() == r@.len()
                &&& contents.no_duplicates()
                &&& forall|c: Seq<u8>| #[trigger] contents.contains(c) <==> is_shared(logins@, c)
                &&& exists|found: Seq<DuplicateAuthSnapshot>|
                    found.len() == contents.len() && r@ == #[trigger] sorted(found) && forall|i: int|
                        0 <= i < found.len() ==> is_group_of(
                            #[trigger] found[i],
                            logins@,
                            contents[i],
                        )
            },
{
    let mut out: Vec<DuplicateAuthSnapshot> = Vec::new();
    let ghost mut contents: Seq<Seq<u8>> = Seq::empty();
    let mut i: usize = 0;
    while i < logins.len()
        invariant
            i <= logins@.len(),
            contents.len() == out@.len(),
            contents.no_duplicates(),
            forall|c: Seq<u8>| #[trigger]
                contents.contains(c) <==> is_shared(logins@, c) && occurs_in(
                    logins@.take(i as int),
                    c,
                ),
            forall|j: int|
                0 <= j < out@.len() ==> is_group_of(#[trigger] out@[j], logins@, contents[j]),
        decreases logins@.len() - i,
    {
        let ghost content = logins@[i as int].content@;
        let ghost before = contents;
        proof {
            lemma_occurs_step(logins@, i as int);
        }
        if !occurs_before(logins, i) && is_chatgpt_auth_snapshot(logins[i].content.as_slice()) {
            proof {
                assert(!occurs_in(logins@.take(i as int), content)) by {
                    if occurs_in(logins@.take(i as int), content) {
                        let j = choose|j: int|
                            0 <= j < logins@.take(i as int).len() && (#[trigger] logins@.take(
                                i as int,
                            )[j]).content@ == content;
                        assert(logins@[j].content@ == content);
                    }
                }
            }
            let profiles = collect_profiles(logins, &logins[i].content);
            if profiles.len() >= 2 {
                out.push(DuplicateAuthSnapshot { profiles: sort(profiles) });
                proof {
                    contents = before.push(content);
                    assert forall|c: Seq<u8>| #[trigger]
                        contents.contains(c) <==> is_shared(logins@, c) && occurs_in(
                            logins@.take(i + 1),
                            c,
                        ) by {
                        if contents.contains(c) {
                            let k = choose|k: int| 0 <= k < contents.len() && contents[k] == c;
                            if k < before.len() {
                                assert(before[k] == c);
                                assert(before.contains(c));
                            }
                        }
                        if is_shared(logins@, c) && occurs_in(logins@.take(i + 1), c) {
                            if c == content {
                                assert(contents[before.len() as int] == c);
                            } else {
                                assert(before.contains(c));
                                let k = choose|k: int| 0 <= k < before.len() && before[k] == c;
                                assert(contents[k] == c);
                            }
                        }
                    }
                    assert(!before.contains(content));
                }
            }
        } else {
            proof {
                if exists|j: int|
                    0 <= j < i && (#[trigger] logins@[j]).content@ == content {
                    let j = choose|j: int| 0 <= j < i && (#[trigger] logins@[j]).content@ == content;
                    assert(logins@.take(i as int)[j].content@ == content);
                }
            }
        }
        i += 1;
    }
    let ghost found = out@;
    proof {
        assert(logins@.take(logins@.len() as int) =~= logins@);
        assert forall|c: Seq<u8>| #[trigger] contents.contains(c) <==> is_shared(logins@, c) by {
            if is_shared(logins@, c) {
                lemma_shared_occurs(logins@, c);
            }
        }
        sorting_orders_and_keeps(found);
    }
    let r = sort(out);
    proof {
        assert(r@ == sorted(found));
    }
    r
}

/// Whether a content occurs among logins.
pub open spec fn occurs_in(logins: Seq<StoredLogin>, content: Seq<u8>) -> bool {
    exists|j: int| 0 <= j < logins.len() && (#[trigger] logins[j]).content@ == content
}

proof fn lemma_occurs_step(logins: Seq<StoredLogin>, i: int)
    requires
        0 <= i < logins.len(),
    ensures
        forall|c: Seq<u8>| #[trigger]
            occurs_in(logins.take(i + 1), c) <==> occurs_in(logins.take(i), c)
                || logins[i].content@ == c,
{
    assert forall|c: Seq<u8>| #[trigger]
        occurs_in(logins.take(i + 1), c) <==> occurs_in(logins.take(i), c)
            || logins[i].content@ == c by {
        if occurs_in(logins.take(i + 1), c) {
            let j = choose|j: int|
                0 <= j < logins.take(i + 1).len() && (#[trigger] logins.take(i + 1)[j]).content@ == c;
            if j < i {
                assert(logins.take(i)[j].content@ == c);
            }
        }
        if occurs_in(logins.take(i), c) {
            let j = choose|j: int|
                0 <= j < logins.take(i).len() && (#[trigger] logins.take(i)[j]).content@ == c;
            assert(logins.take(i + 1)[j].content@ == c);
        }
        if logins[i].content@ == c {
            assert(logins.take(i + 1)[i].content@ == c);
        }
    }
}

proof fn lemma_shared_occurs(logins: Seq<StoredLogin>, content: Seq<u8>)
    requires
        profiles_with(logins, content).len() > 0,
    ensures
        occurs_in(logins, content),
    decreases logins.len(),
{
    reveal_with_fuel(Seq::filter_map, 1);
    if logins.len() > 0 {
        let n = logins.len() - 1;
        if logins[n].content@ == content {
        } else {
            lemma_shared_occurs(logins.drop_last(), content);
            let j = choose|j: int|
                0 <= j < logins.drop_last().len() && (#[trigger] logins.drop_last()[j]).content@
                    == content;
            assert(logins[j].content@ == content);
        }
    }
}

/// The lines that warn of shared logins; none where there are none.
pub open spec fn duplicate_warnings(duplicates: Seq<DuplicateAuthSnapshot>) -> Seq<Seq<char>> {
    if duplicates.len() == 0 {
        Seq::empty()
    } else {
        seq![""@, "Warnings:"@] + duplicates.map_values(
            |d: DuplicateAuthSnapshot|
                "  ⚠ ChatGPT auth snapshot reused by: "@ + joined(views(d.profiles@), ", "@),
        ) + seq![
            "  Re-login or import a distinct auth snapshot before switching these profiles."@,
            "  Duplicate OAuth refresh tokens can fail with refresh_token_reused."@,
        ]
    }
}

/// The lines that warn of shared logins.
pub fn print_duplicate_chatgpt_auth_warnings(duplicates: &Vec<DuplicateAuthSnapshot>) -> (r: Vec<
    String,
>)
    ensures
        views(r@) == duplicate_warnings(duplicates@),
{
    let mut out: Vec<String> = Vec::new();
    if duplicates.len() == 0 {
        proof {
            assert(views(out@) =~= Seq::<Seq<char>>::empty());
        }
        return out;
    }
    out.push("".to_owned());
    out.push("Warnings:".to_owned());
    let ghost head = seq![""@, "Warnings:"@];
    let ghost told = duplicates@.map_values(
        |d: DuplicateAuthSnapshot|
            "  ⚠ ChatGPT auth snapshot reused by: "@ + joined(views(d.profiles@), ", "@),
    );
    let mut i: usize = 0;
    proof {
        assert(views(out@) =~= head + told.take(0));
    }
    while i < duplicates.len()
        invariant
            i <= duplicates@.len(),
            told == duplicates@.map_values(
                |d: DuplicateAuthSnapshot|
                    "  ⚠ ChatGPT auth snapshot reused by: "@ + joined(views(d.profiles@), ", "@),
            ),
            views(out@) == head + told.take(i as int),
        decreases duplicates@.len() - i,
    {
        let ghost before = views(out@);
        let mut line = "  ⚠ ChatGPT auth snapshot reused by: ".to_owned();
        line.push_str(join(&duplicates[i].profiles, ", ").as_str());
        out.push(line);
        proof {
            assert(views(out@) =~= before.push(told[i as int]));
            assert(views(out@) =~= head + told.take(i + 1));
        }
        i += 1;
    }
    let ghost before = views(out@);
    out.push(
        "  Re-login or import a distinct auth snapshot before switching these profiles.".to_owned(),
    );
    out.push("  Duplicate OAuth refresh tokens can fail with refresh_token_reused.".to_owned());
    proof {
        assert(told.take(told.len() as int) =~= told);
        assert(views(out@) =~= duplicate_warnings(duplicates@));
    }
    out
}

} // verus!
