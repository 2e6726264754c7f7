//! What a profile sets on top of the common configuration: by paths of keys, each laid over
//! the common setting or section that it begins at.
use vstd::prelude::*;

use crate::text::{copy_list, same_text, starts_with};
use crate::text::views;
use crate::toml_docs::{
    content_of, contents, entry_at, entry_views, inner_item, is_absent, is_bare_key, is_table_array,
    holds_items, item_with, key_path, member_of, table_entries, table_with, value_item, value_text,
    Content, Entries,
};
use crate::toml_docs::{
    get_inner, new_table, parse_key, set_inner, table_members, value_to_item, value_to_text,
};

verus! {

/// Whether an entry is written as a section.
pub open spec fn is_section(item: toml_edit::Item) -> bool {
    table_entries(item) is Some || is_table_array(item)
}

/// Whether a key is set by the profile, whatever the common configuration says.
pub open spec fn is_profile_key(key: Seq<char>) -> bool {
    key == "model_provider"@ || key == "model"@ || key == "model_context_window"@ || key
        == "model_auto_compact_token_limit"@
}

/// The settings that a profile holds on top of the common ones.
pub type Overrides = Option<Vec<(String, toml::Value)>>;

/// The settings that a profile holds on top of the common ones, in order.
pub open spec fn listed(overrides: Overrides) -> Seq<(String, toml::Value)> {
    match overrides {
        Some(list) => list@,
        None => Seq::empty(),
    }
}

/// Whether an override is a setting and not a section.
pub open spec fn is_setting(key: Seq<char>) -> bool {
    !"["@.is_prefix_of(key)
}

/// The path of a setting: the keys between its dots.
pub open spec fn setting_path(key: Seq<char>) -> Seq<Seq<char>> {
    match key_path(key) {
        Some(path) => path,
        None => seq![key],
    }
}

/// Whether an override begins at a key of the top level.
pub open spec fn begins_at(over: (String, toml::Value), key: Seq<char>) -> bool {
    is_setting(over.0@) && setting_path(over.0@).len() > 0 && setting_path(over.0@)[0] == key
}

/// Whether any override begins at a key of the top level.
pub open spec fn is_named(key: Seq<char>, overs: Seq<(String, toml::Value)>) -> bool {
    exists|i: int| 0 <= i < overs.len() && begins_at(#[trigger] overs[i], key)
}

/// Whether an override sets something inside a common entry.
pub open spec fn extends(over: (String, toml::Value), entry: (Seq<char>, toml_edit::Item)) -> bool {
    begins_at(over, entry.0) && holds_items(entry.1) && (setting_path(over.0@).len() > 1
        || content_of(over.1) is Table)
}

/// Whether an override takes the place of a common entry.
pub open spec fn replaces(over: (String, toml::Value), entry: (Seq<char>, toml_edit::Item)) -> bool {
    begins_at(over, entry.0) && !extends(over, entry)
}

/// Whether any override takes the place of a common entry.
pub open spec fn is_replaced(
    entry: (Seq<char>, toml_edit::Item),
    overs: Seq<(String, toml::Value)>,
) -> bool {
    exists|i: int| 0 <= i < overs.len() && replaces(#[trigger] overs[i], entry)
}

/// Whether a common entry is written: none that the profile sets, whatever the common
/// configuration says, and none that an override takes the place of.
pub open spec fn is_written(
    entry: (Seq<char>, toml_edit::Item),
    overs: Seq<(String, toml::Value)>,
) -> bool {
    (if is_section(entry.1) {
        entry.0 != "model_providers"@
    } else {
        !is_profile_key(entry.0)
    }) && !is_replaced(entry, overs)
}

/// Whether an override is set inside a common entry that is written.
pub open spec fn is_absorbed(
    over: (String, toml::Value),
    entries: Entries,
    overs: Seq<(String, toml::Value)>,
) -> bool {
    exists|i: int|
        0 <= i < entries.len() && is_written(#[trigger] entries[i], overs) && extends(over, entries[i])
}

/// Paths, and the items to be set there.
pub type Leaves = Seq<(Seq<Seq<char>>, Option<toml_edit::Item>)>;

/// What is set where a value is laid over a table: each of its settings by itself, so that the
/// others stay.
pub open spec fn leaves(path: Seq<Seq<char>>, content: Content) -> Leaves
    decreases content, 0nat,
{
    match content {
        Content::Leaf(value) => seq![(path, value_item(value))],
        Content::Table(members) => member_leaves(path, members, members.len()),
    }
}

/// What the first members of a table set.
pub open spec fn member_leaves(
    path: Seq<Seq<char>>,
    members: Seq<(Seq<char>, Content)>,
    n: nat,
) -> Leaves
    decreases members, n,
{
    if n == 0 || n > members.len() {
        Seq::empty()
    } else {
        member_leaves(path, members, (n - 1) as nat) + leaves(
            path.push(members[n - 1].0),
            members[n - 1].1,
        )
    }
}

/// Tables inside each other, and an item in the innermost.
pub open spec fn nested(path: Seq<Seq<char>>, value: toml_edit::Item) -> toml_edit::Item
    decreases path.len(),
{
    if path.len() == 0 {
        value
    } else {
        table_with(path[0], nested(path.drop_first(), value))
    }
}

/// A table with an item set at a path inside it. What stands in the way of the path and is no
/// table makes room for one.
pub open spec fn item_set(
    item: toml_edit::Item,
    path: Seq<Seq<char>>,
    value: toml_edit::Item,
) -> toml_edit::Item
    decreases path.len(),
{
    if path.len() == 0 {
        value
    } else {
        let rest = path.drop_first();
        let inner = inner_item(item, path[0]);
        item_with(
            item,
            path[0],
            if rest.len() > 0 && inner is Some && holds_items(inner->0) {
                item_set(inner->0, rest, value)
            } else {
                nested(rest, value)
            },
        )
    }
}

/// A table with items set inside it, one after the other.
pub open spec fn items_set(item: toml_edit::Item, list: Leaves) -> toml_edit::Item
    decreases list.len(),
{
    if list.len() == 0 {
        item
    } else {
        item_set(items_set(item, list.drop_last()), list.last().0, list.last().1->0)
    }
}

/// What an override sets inside the entry that it begins at.
pub open spec fn override_leaves(over: (String, toml::Value)) -> Leaves {
    leaves(setting_path(over.0@).drop_first(), content_of(over.1))
}

/// The item of a common entry once the overrides have been laid over it.
pub open spec fn overlaid(
    entry: (Seq<char>, toml_edit::Item),
    overs: Seq<(String, toml::Value)>,
) -> toml_edit::Item
    decreases overs.len(),
{
    if overs.len() == 0 {
        entry.1
    } else if extends(overs.last(), entry) {
        items_set(overlaid(entry, overs.drop_last()), override_leaves(overs.last()))
    } else {
        overlaid(entry, overs.drop_last())
    }
}

/// Whether an override can be written, where it is a setting.
pub open spec fn can_write(
    over: (String, toml::Value),
    entries: Entries,
    overs: Seq<(String, toml::Value)>,
) -> bool {
    if !is_setting(over.0@) {
        true
    } else if is_absorbed(over, entries, overs) {
        all_items(override_leaves(over))
    } else {
        value_text(over.1) is Some
    }
}

/// Whether there is an item for each path.
pub open spec fn all_items(list: Leaves) -> bool {
    forall|i: int| 0 <= i < list.len() ==> (#[trigger] list[i]).1 is Some
}

/// Whether all overrides can be written.
pub open spec fn can_write_all(entries: Entries, overs: Seq<(String, toml::Value)>) -> bool {
    forall|i: int| 0 <= i < overs.len() ==> can_write(#[trigger] overs[i], entries, overs)
}

/// Whether an entry is written as a section.
pub fn item_is_section(item: &toml_edit::Item) -> (r: bool)
    ensures
        r == is_section(*item),
{
    item.is_table() || item.is_array_of_tables()
}

/// The path of a setting: the keys between its dots.
pub fn path_of_setting(key: &str) -> (r: Vec<String>)
    ensures
        views(r@) == setting_path(key@),
        r@.len() > 0,
        is_bare_key(key@) ==> views(r@) == seq![key@],
{
    match parse_key(key) {
        Some(path) => path,
        None => {
            let mut path: Vec<String> = Vec::new();
            path.push(key.to_owned());
            proof {
                assert(views(path@) =~= seq![key@]);
            }
            path
        },
    }
}

fn override_begins_at(over: &(String, toml::Value), key: &str) -> (r: bool)
    ensures
        r == begins_at(*over, key@),
{
    if starts_with(over.0.as_str(), "[") {
        return false;
    }
    let path = path_of_setting(over.0.as_str());
    proof {
        assert(views(path@)[0] == path@[0]@);
    }
    same_text(path[0].as_str(), key)
}

fn override_extends(over: &(String, toml::Value), entry: &(String, toml_edit::Item)) -> (r: bool)
    ensures
        r == extends(*over, (entry.0@, entry.1)),
{
    override_begins_at(over, entry.0.as_str()) && entry.1.is_table_like() && (path_of_setting(
        over.0.as_str(),
    ).len() > 1 || table_members(&over.1).is_some())
}

/// Whether any override begins at a key of the top level.
pub fn names_key(overs: &Vec<(String, toml::Value)>, key: &str) -> (r: bool)
    ensures
        r == is_named(key@, overs@),
{
    let mut i: usize = 0;
    while i < overs.len()
        invariant
            i <= overs@.len(),
            forall|j: int| 0 <= j < i ==> !begins_at(#[trigger] overs@[j], key@),
        decreases overs@.len() - i,
    {
        if override_begins_at(&overs[i], key) {
            return true;
        }
        i += 1;
    }
    false
}

/// Whether a common entry is written.
pub fn writes_entry(entry: &(String, toml_edit::Item), overs: &Vec<(String, toml::Value)>) -> (r:
    bool)
    ensures
        r == is_written((entry.0@, entry.1), overs@),
{
    let key = entry.0.as_str();
    if item_is_section(&entry.1) {
        if same_text(key, "model_providers") {
            return false;
        }
    } else if same_text(key, "model_provider") || same_text(key, "model") || same_text(
        key,
        "model_context_window",
    ) || same_text(key, "model_auto_compact_token_limit") {
        return false;
    }
    let mut i: usize = 0;
    while i < overs.len()
        invariant
            i <= overs@.len(),
            key@ == entry.0@,
            forall|j: int| 0 <= j < i ==> !replaces(#[trigger] overs@[j], (entry.0@, entry.1)),
        decreases overs@.len() - i,
    {
        if override_begins_at(&overs[i], key) && !override_extends(&overs[i], entry) {
            proof {
                assert(replaces(overs@[i as int], (entry.0@, entry.1)));
            }
            return false;
        }
        i += 1;
    }
    true
}

/// Whether an override is set inside a common entry that is written.
pub fn absorbs(
    entries: &Vec<(String, toml_edit::Item)>,
    overs: &Vec<(String, toml::Value)>,
    over: &(String, toml::Value),
) -> (r: bool)
    ensures
        r == is_absorbed(*over, entry_views(entries@), overs@),
{
    let ghost all = entry_views(entries@);
    let mut i: usize = 0;
    while i < entries.len()
        invariant
            i <= entries@.len(),
            all == entry_views(entries@),
            forall|j: int|
                0 <= j < i ==> !(is_written(#[trigger] all[j], overs@) && extends(*over, all[j])),
        decreases entries@.len() - i,
    {
        proof {
            assert(all[i as int] == (entries@[i as int].0@, entries@[i as int].1));
        }
        if override_extends(over, &entries[i]) && writes_entry(&entries[i], overs) {
            return true;
        }
        i += 1;
    }
    false
}

/// Paths and items, as texts and items.
pub open spec fn leaf_views(list: Seq<(Vec<String>, toml_edit::Item)>) -> Leaves {
    list.map_values(|leaf: (Vec<String>, toml_edit::Item)| (views(leaf.0@), Some(leaf.1)))
}

/// What is set where a value is laid over a table; none where part of it makes no item.
pub fn collect_leaves(path: &Vec<String>, value: &toml::Value) -> (r: Option<
    Vec<(Vec<String>, toml_edit::Item)>,
>)
    ensures
        r is Some <==> all_items(leaves(views(path@), content_of(*value))),
        r is Some ==> leaf_views(r->0@) == leaves(views(path@), content_of(*value)),
        r is Some ==> forall|i: int| 0 <= i < r->0@.len() ==> !is_absent((#[trigger] r->0@[i]).1),
    decreases content_of(*value),
{
    let ghost whole = leaves(views(path@), content_of(*value));
    let mut out: Vec<(Vec<String>, toml_edit::Item)> = Vec::new();
    match table_members(value) {
        None => {
            match value_to_item(value) {
                None => {
                    proof {
                        assert(whole[0].1 is None);
                    }
                    None
                },
                Some(item) => {
                    out.push((copy_list(path), item));
                    proof {
                        assert(leaf_views(out@) =~= whole);
                    }
                    Some(out)
                },
            }
        },
        Some(members) => {
            let ghost all = contents(members@);
            let mut i: usize = 0;
            proof {
                assert(leaf_views(out@) =~= member_leaves(views(path@), all, 0));
            }
            while i < members.len()
                invariant
                    i <= members@.len(),
                    all == contents(members@),
                    content_of(*value) == Content::Table(all),
                    whole == member_leaves(views(path@), all, all.len()),
                    leaf_views(out@) == member_leaves(views(path@), all, i as nat),
                    forall|j: int| 0 <= j < out@.len() ==> !is_absent((#[trigger] out@[j]).1),
                decreases members@.len() - i,
            {
                let mut deeper = copy_list(path);
                deeper.push(members[i].0.clone());
                let ghost made = leaves(views(path@).push(all[i as int].0), all[i as int].1);
                let ghost before = member_leaves(views(path@), all, i as nat);
                proof {
                    assert(all[i as int] == (members@[i as int].0@, content_of(members@[i as int].1)));
                    assert(views(deeper@) =~= views(path@).push(all[i as int].0));
                    assert(member_leaves(views(path@), all, (i + 1) as nat) == before + made);
                    assert(decreases_to!(content_of(*value) => all[i as int].1)) by {
                        assert(decreases_to!(content_of(*value) => content_of(*value)->Table_0));
                        assert(decreases_to!(all => all[i as int]));
                        assert(decreases_to!(all[i as int] => all[i as int].1));
                    }
                    lemma_leaves_of_member(views(path@), all, (i + 1) as nat);
                }
                match collect_leaves(&deeper, &members[i].1) {
                    None => {
                        proof {
                            let k = choose|k: int| 0 <= k < made.len() && (#[trigger] made[k]).1 is None;
                            assert((before + made)[before.len() + k] == made[k]);
                            assert(whole[before.len() + k].1 is None);
                        }
                        return None;
                    },
                    Some(more) => {
                        let ghost sofar = out@;
                        let mut more = more;
                        let ghost added = more@;
                        out.append(&mut more);
                        proof {
                            assert(out@ =~= sofar + added);
                            assert(leaf_views(out@) =~= leaf_views(sofar) + leaf_views(added));
                        }
                    },
                }
                i += 1;
            }
            proof {
                assert forall|j: int| 0 <= j < whole.len() implies (#[trigger] whole[j]).1
                    is Some by {
                    assert(leaf_views(out@)[j] == whole[j]);
                }
            }
            Some(out)
        },
    }
}

proof fn lemma_leaves_of_member(path: Seq<Seq<char>>, members: Seq<(Seq<char>, Content)>, n: nat)
    requires
        n <= members.len(),
    ensures
        member_leaves(path, members, n).is_prefix_of(member_leaves(path, members, members.len())),
    decreases members.len() - n,
{
    if n < members.len() {
        lemma_leaves_of_member(path, members, n + 1);
        let next = member_leaves(path, members, n + 1);
        assert(next.take(member_leaves(path, members, n).len() as int) =~= member_leaves(
            path,
            members,
            n,
        ));
    }
}

fn tail_of(path: &Vec<String>) -> (r: Vec<String>)
    requires
        path@.len() > 0,
    ensures
        views(r@) == views(path@).drop_first(),
        r@.len() == path@.len() - 1,
{
    let mut rest = copy_list(path);
    rest.remove(0);
    proof {
        assert(views(rest@) =~= views(path@).drop_first());
    }
    rest
}

/// The item at a path of tables.
pub open spec fn item_at(item: toml_edit::Item, path: Seq<Seq<char>>) -> Option<toml_edit::Item>
    decreases path.len(),
{
    if path.len() == 0 {
        Some(item)
    } else {
        match member_of(Some(item), path[0]) {
            Some(inner) => item_at(inner, path.drop_first()),
            None => None,
        }
    }
}

/// Whether the tables along a path are written as sections.
pub open spec fn leads_through_sections(item: toml_edit::Item, path: Seq<Seq<char>>) -> bool
    decreases path.len(),
{
    path.len() > 0 ==> {
        &&& table_entries(item) is Some
        &&& path.len() > 1 && inner_item(item, path[0]) is Some && holds_items(
            inner_item(item, path[0])->0,
        ) ==> leads_through_sections(inner_item(item, path[0])->0, path.drop_first())
    }
}

fn nest(path: &Vec<String>, value: &toml_edit::Item) -> (r: toml_edit::Item)
    requires
        path@.len() > 0,
        !is_absent(*value),
    ensures
        r == nested(views(path@), *value),
        !is_absent(r),
        item_at(r, views(path@)) == Some(*value),
    decreases path@.len(),
{
    let rest = tail_of(path);
    let ghost rest_path = views(path@).drop_first();
    proof {
        assert(views(path@)[0] == path@[0]@);
        assert(views(path@).len() == path@.len());
        assert(views(rest@).len() == rest@.len());
        reveal_with_fuel(entry_at, 1);
    }
    if rest.len() == 0 {
        let r = new_table(path[0].as_str(), value);
        proof {
            assert(nested(rest_path, *value) == *value);
            assert(member_of(Some(r), views(path@)[0]) == Some(*value));
            assert(item_at(*value, rest_path) == Some(*value));
        }
        r
    } else {
        let inner = nest(&rest, value);
        let r = new_table(path[0].as_str(), &inner);
        proof {
            assert(member_of(Some(r), views(path@)[0]) == Some(inner));
        }
        r
    }
}

/// A table with an item set at a path inside it. Where the path leads through sections, the
/// item is then found there, and everything beside the path stays.
pub fn set_item(item: &toml_edit::Item, path: &Vec<String>, value: &toml_edit::Item) -> (r:
    toml_edit::Item)
    requires
        holds_items(*item),
        path@.len() > 0,
        !is_absent(*value),
    ensures
        r == item_set(*item, views(path@), *value),
        holds_items(r),
        !is_absent(r),
        leads_through_sections(*item, views(path@)) ==> item_at(r, views(path@)) == Some(*value),
        table_entries(*item) is Some ==> table_entries(r) is Some && forall|other: Seq<char>|
            other != views(path@)[0] ==> #[trigger] member_of(Some(r), other) == member_of(
                Some(*item),
                other,
            ),
    decreases path@.len(),
{
    let rest = tail_of(path);
    let ghost rest_path = views(path@).drop_first();
    proof {
        assert(views(path@)[0] == path@[0]@);
        assert(views(path@).len() == path@.len());
        assert(views(rest@).len() == rest@.len());
    }
    if rest.len() == 0 {
        let r = set_inner(item, path[0].as_str(), value);
        proof {
            assert(nested(rest_path, *value) == *value);
            assert(item_at(*value, rest_path) == Some(*value));
        }
        return r;
    }
    if let Some(inner) = get_inner(item, path[0].as_str()) {
        if inner.is_table_like() {
            let made = set_item(&inner, &rest, value);
            return set_inner(item, path[0].as_str(), &made);
        }
    }
    let made = nest(&rest, value);
    set_inner(item, path[0].as_str(), &made)
}

/// The item of a common entry once the overrides have been laid over it.
pub fn overlay(entry: &(String, toml_edit::Item), overs: &Vec<(String, toml::Value)>) -> (r:
    toml_edit::Item)
    requires
        forall|i: int|
            0 <= i < overs@.len() && extends(#[trigger] overs@[i], (entry.0@, entry.1))
                ==> all_items(override_leaves(overs@[i])),
    ensures
        r == overlaid((entry.0@, entry.1), overs@),
{
    let ghost pair = (entry.0@, entry.1);
    let mut item = entry.1.clone();
    let mut i: usize = 0;
    proof {
        assert(overs@.take(0).len() == 0);
    }
    while i < overs.len()
        invariant
            i <= overs@.len(),
            pair == (entry.0@, entry.1),
            item == overlaid(pair, overs@.take(i as int)),
            holds_items(entry.1) ==> holds_items(item),
            forall|j: int|
                0 <= j < overs@.len() && extends(#[trigger] overs@[j], pair) ==> all_items(
                    override_leaves(overs@[j]),
                ),
        decreases overs@.len() - i,
    {
        proof {
            assert(overs@.take(i + 1).drop_last() =~= overs@.take(i as int));
            assert(overs@.take(i + 1).last() == overs@[i as int]);
        }
        if override_extends(&overs[i], entry) {
            let path = path_of_setting(overs[i].0.as_str());
            let rest = tail_of(&path);
            let ghost all = override_leaves(overs@[i as int]);
            proof {
                lemma_leaf_paths(views(rest@), content_of(overs@[i as int].1));
                assert(views(path@).len() == path@.len());
                assert(views(rest@).len() == rest@.len());
            }
            if let Some(list) = collect_leaves(&rest, &overs[i].1) {
                let ghost start = item;
                let mut j: usize = 0;
                proof {
                    assert(all.take(0).len() == 0);
                    assert(all.len() == list@.len());
                }
                while j < list.len()
                    invariant
                        j <= list@.len(),
                        all == leaf_views(list@),
                        all.len() == list@.len(),
                        forall|k: int| 0 <= k < all.len() ==> (#[trigger] all[k]).0.len() > 0,
                        forall|k: int|
                            0 <= k < list@.len() ==> !is_absent((#[trigger] list@[k]).1),
                        holds_items(item),
                        item == items_set(start, all.take(j as int)),
                    decreases list@.len() - j,
                {
                    proof {
                        assert(all.take(j + 1).drop_last() =~= all.take(j as int));
                        assert(all.take(j + 1).last() == all[j as int]);
                        assert(all[j as int] == (views(list@[j as int].0@), Some(list@[j as int].1)));
                        assert(views(list@[j as int].0@).len() == list@[j as int].0@.len());
                    }
                    item = set_item(&item, &list[j].0, &list[j].1);
                    j += 1;
                }
                proof {
                    assert(all.take(all.len() as int) =~= all);
                }
            }
        }
        i += 1;
    }
    proof {
        assert(overs@.take(overs@.len() as int) =~= overs@);
    }
    item
}

/// No item is set in place of the whole table that a value is laid over.
proof fn lemma_leaf_paths(path: Seq<Seq<char>>, content: Content)
    ensures
        forall|i: int|
            0 <= i < leaves(path, content).len() ==> path.len() <= (#[trigger] leaves(
                path,
                content,
            )[i]).0.len(),
        content is Table ==> forall|i: int|
            0 <= i < leaves(path, content).len() ==> path.len() < (#[trigger] leaves(
                path,
                content,
            )[i]).0.len(),
    decreases content, 0nat,
{
    match content {
        Content::Leaf(value) => {
            assert(leaves(path, content) =~= seq![(path, value_item(value))]);
        },
        Content::Table(members) => {
            assert(leaves(path, content) == member_leaves(path, members, members.len()));
            lemma_member_leaf_paths(path, members, members.len());
        },
    }
}

proof fn lemma_member_leaf_paths(path: Seq<Seq<char>>, members: Seq<(Seq<char>, Content)>, n: nat)
    requires
        n <= members.len(),
    ensures
        forall|i: int|
            0 <= i < member_leaves(path, members, n).len() ==> path.len() < (
            #[trigger] member_leaves(path, members, n)[i]).0.len(),
    decreases members, n,
{
    if n > 0 {
        let last = members[n - 1];
        lemma_member_leaf_paths(path, members, (n - 1) as nat);
        assert(decreases_to!(members => last));
        assert(decreases_to!(last => last.1));
        lemma_leaf_paths(path.push(last.0), last.1);
        let before = member_leaves(path, members, (n - 1) as nat);
        let made = leaves(path.push(last.0), last.1);
        assert forall|i: int| 0 <= i < (before + made).len() implies path.len() < (
        #[trigger] (before + made)[i]).0.len() by {
            if i < before.len() {
                assert((before + made)[i] == before[i]);
            } else {
                assert((before + made)[i] == made[i - before.len()]);
            }
        }
    }
}

/// Whether all overrides can be written.
pub fn writes_all(entries: &Vec<(String, toml_edit::Item)>, overs: &Vec<(String, toml::Value)>) -> (
    r: bool)
    ensures
        r == can_write_all(entry_views(entries@), overs@),
{
    let mut i: usize = 0;
    while i < overs.len()
        invariant
            i <= overs@.len(),
            forall|j: int|
                0 <= j < i ==> can_write(#[trigger] overs@[j], entry_views(entries@), overs@),
        decreases overs@.len() - i,
    {
        if !starts_with(overs[i].0.as_str(), "[") {
            let written = if absorbs(entries, overs, &overs[i]) {
                let path = path_of_setting(overs[i].0.as_str());
                let rest = tail_of(&path);
                collect_leaves(&rest, &overs[i].1).is_some()
            } else {
                value_to_text(&overs[i].1).is_some()
            };
            if !written {
                return false;
            }
        }
        i += 1;
    }
    true
}

} // verus!
