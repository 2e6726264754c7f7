//! TOML documents and values: what the configuration logic reads from them and writes with
//! them.
use vstd::prelude::*;

use crate::text::{opt_view, views};

verus! {

/// `toml_edit::DocumentMut`, a TOML document that keeps its formatting.
#[verifier::external_type_specification]
#[verifier::external_body]
pub struct ExDocument(toml_edit::DocumentMut);

/// `toml_edit::Item`, a value, a table or an array of tables of a document.
#[verifier::external_type_specification]
#[verifier::external_body]
pub struct ExItem(toml_edit::Item);

/// `toml::Value`, a TOML value without formatting.
#[verifier::external_type_specification]
#[verifier::external_body]
pub struct ExTomlValue(toml::Value);

/// The entries of a table: keys and items, in order.
pub type Entries = Seq<(Seq<char>, toml_edit::Item)>;

/// The document that `str::parse` reads from a text, if it is one.
pub uninterp spec fn document_of(text: Seq<char>) -> Option<toml_edit::DocumentMut>;

/// The entries of a document.
pub uninterp spec fn document_entries(doc: toml_edit::DocumentMut) -> Seq<(Seq<char>, toml_edit::Item)>;

/// The document that is left once a key has been removed.
pub uninterp spec fn document_without(doc: toml_edit::DocumentMut, key: Seq<char>) -> toml_edit::DocumentMut;

/// The text of a document.
pub uninterp spec fn document_text(doc: toml_edit::DocumentMut) -> Seq<char>;

/// The text of an item.
pub uninterp spec fn item_text(item: toml_edit::Item) -> Seq<char>;

/// The string of an item, where it is one.
pub uninterp spec fn item_string(item: toml_edit::Item) -> Option<Seq<char>>;

/// The integer of an item, where it is one.
pub uninterp spec fn item_integer(item: toml_edit::Item) -> Option<i64>;

/// The truth value of an item, where it is one.
pub uninterp spec fn item_bool(item: toml_edit::Item) -> Option<bool>;

/// The entries of an item, where it is a table.
pub uninterp spec fn table_entries(item: toml_edit::Item) -> Option<Seq<(Seq<char>, toml_edit::Item)>>;

/// Whether an item is an array of tables.
pub uninterp spec fn is_table_array(item: toml_edit::Item) -> bool;

/// The text of a document that holds one item under a key.
pub uninterp spec fn section_text(key: Seq<char>, item: toml_edit::Item) -> Seq<char>;

/// The text of a TOML value, if it has one.
pub uninterp spec fn value_text(value: toml::Value) -> Option<Seq<char>>;

/// The item that a TOML value makes, if it makes one.
pub uninterp spec fn value_item(value: toml::Value) -> Option<toml_edit::Item>;

/// What a TOML value holds: a table of values, or something else.
pub enum Content {
    Leaf(toml::Value),
    Table(Seq<(Seq<char>, Content)>),
}

/// What a TOML value holds.
pub uninterp spec fn content_of(value: toml::Value) -> Content;

/// The keys of a dotted key, if a text is one.
pub uninterp spec fn key_path(text: Seq<char>) -> Option<Seq<Seq<char>>>;

/// Whether an item stands for nothing.
pub uninterp spec fn is_absent(item: toml_edit::Item) -> bool;

/// Whether an item is a table, be it written as a section or inline.
pub uninterp spec fn holds_items(item: toml_edit::Item) -> bool;

/// The item under a key of a table, be it written as a section or inline.
pub uninterp spec fn inner_item(item: toml_edit::Item, key: Seq<char>) -> Option<toml_edit::Item>;

/// A table, be it written as a section or inline, once an item has been set under a key.
pub uninterp spec fn item_with(
    item: toml_edit::Item,
    key: Seq<char>,
    inner: toml_edit::Item,
) -> toml_edit::Item;

/// A table that holds one item.
pub uninterp spec fn table_with(key: Seq<char>, inner: toml_edit::Item) -> toml_edit::Item;

/// Whether a key needs no quotes.
pub open spec fn is_bare_key(key: Seq<char>) -> bool {
    key.len() > 0 && forall|i: int|
        0 <= i < key.len() ==> {
            let c = #[trigger] key[i];
            'A' <= c <= 'Z' || 'a' <= c <= 'z' || '0' <= c <= '9' || c == '-' || c == '_'
        }
}

/// Whether a text stands for itself between quotation marks.
pub open spec fn is_plain(text: Seq<char>) -> bool {
    forall|i: int|
        0 <= i < text.len() ==> {
            let c = #[trigger] text[i];
            c == '\t' || (' ' <= c && c != '"' && c != '\\' && c != '\u{7f}')
        }
}

/// A line with a key and a string.
pub open spec fn string_line(key: Seq<char>, value: Seq<char>) -> Seq<char> {
    key + " = \""@ + value + "\"\n"@
}

/// Whether a text begins with a line that gives a key a string, both written plainly.
pub open spec fn begins_with_string(text: Seq<char>, key: Seq<char>, value: Seq<char>) -> bool {
    is_bare_key(key) && is_plain(value) && string_line(key, value).is_prefix_of(text)
}

/// The item of the first entry with a key.
pub open spec fn entry_at(entries: Entries, key: Seq<char>) -> Option<toml_edit::Item>
    decreases entries.len(),
{
    if entries.len() == 0 {
        None
    } else if entries[0].0 == key {
        Some(entries[0].1)
    } else {
        entry_at(entries.drop_first(), key)
    }
}

/// Whether an entry does not have a key.
pub open spec fn has_other_key(entry: (Seq<char>, toml_edit::Item), key: Seq<char>) -> bool {
    entry.0 != key
}

/// The entries with other keys.
pub open spec fn entries_without(entries: Entries, key: Seq<char>) -> Entries {
    entries.filter(|e: (Seq<char>, toml_edit::Item)| has_other_key(e, key))
}

/// Entries as strings and items.
pub open spec fn entry_views(entries: Seq<(String, toml_edit::Item)>) -> Entries {
    entries.map_values(|e: (String, toml_edit::Item)| (e.0@, e.1))
}

/// The item of an entry of an item, where that is a table.
pub open spec fn member_of(item: Option<toml_edit::Item>, key: Seq<char>) -> Option<toml_edit::Item> {
    match item {
        Some(item) => match table_entries(item) {
            Some(entries) => entry_at(entries, key),
            None => None,
        },
        None => None,
    }
}

/// The string of an optional item.
pub open spec fn opt_string(item: Option<toml_edit::Item>) -> Option<Seq<char>> {
    match item {
        Some(item) => item_string(item),
        None => None,
    }
}

/// The truth value of an optional item.
pub open spec fn opt_bool(item: Option<toml_edit::Item>) -> Option<bool> {
    match item {
        Some(item) => item_bool(item),
        None => None,
    }
}

/// The integer of an optional item.
pub open spec fn opt_integer(item: Option<toml_edit::Item>) -> Option<i64> {
    match item {
        Some(item) => item_integer(item),
        None => None,
    }
}

/// `toml_edit::Item::clone` gives an equal item.
pub assume_specification[ <toml_edit::Item as Clone>::clone ](item: &toml_edit::Item) -> (r:
    toml_edit::Item)
    ensures
        r == *item,
;

/// `toml_edit::Item::as_integer`: a function of the item.
pub assume_specification[ toml_edit::Item::as_integer ](item: &toml_edit::Item) -> (r: Option<i64>)
    ensures
        r == item_integer(*item),
;

/// `toml_edit::Item::as_bool`: a function of the item.
pub assume_specification[ toml_edit::Item::as_bool ](item: &toml_edit::Item) -> (r: Option<bool>)
    ensures
        r == item_bool(*item),
;

/// `toml_edit::Item::is_table`: whether the item has the entries of a table.
pub assume_specification[ toml_edit::Item::is_table ](item: &toml_edit::Item) -> (r: bool)
    ensures
        r == (table_entries(*item) is Some),
;

/// `toml_edit::Item::is_array_of_tables`: a function of the item.
pub assume_specification[ toml_edit::Item::is_array_of_tables ](item: &toml_edit::Item) -> (r: bool)
    ensures
        r == is_table_array(*item),
;

/// `str::parse` into a `toml_edit::DocumentMut`: a function of the text. Where the text begins
/// with a line that gives a key a string, the document holds that string under the key: no
/// later line can set the key again. The rest of the grammar is left unsaid.
#[verifier::external_body]
pub(crate) fn parse_document(text: &str) -> (r: Option<toml_edit::DocumentMut>)
    ensures
        r == document_of(text@),
        forall|key: Seq<char>, value: Seq<char>|
            r is Some && #[trigger] begins_with_string(text@, key, value) ==> opt_string(
                entry_at(document_entries(r->0), key),
            ) == Some(value),
{
    text.parse::<toml_edit::DocumentMut>().ok()
}

/// `toml_edit::DocumentMut::iter`, collected: the entries of the document.
#[verifier::external_body]
pub(crate) fn list_entries(doc: &toml_edit::DocumentMut) -> (r: Vec<(String, toml_edit::Item)>)
    ensures
        entry_views(r@) == document_entries(*doc),
{
    doc.iter().map(|(key, item)| (key.to_string(), item.clone())).collect()
}

/// `toml_edit::Table::get` on a document: the item of the entry with the key.
#[verifier::external_body]
pub(crate) fn get_item(doc: &toml_edit::DocumentMut, key: &str) -> (r: Option<toml_edit::Item>)
    ensures
        r == entry_at(document_entries(*doc), key@),
{
    doc.get(key).cloned()
}

/// `toml_edit::Item::as_table` and `Table::get`: the item of the entry with the key, where the
/// item is a table.
#[verifier::external_body]
fn table_item(item: &toml_edit::Item, key: &str) -> (r: Option<toml_edit::Item>)
    ensures
        r == member_of(Some(*item), key@),
{
    item.as_table()?.get(key).cloned()
}

/// `toml_edit::Table::remove` on a document: the entry with the key goes, and the others stay
/// in order.
#[verifier::external_body]
pub(crate) fn remove_key(doc: &mut toml_edit::DocumentMut, key: &str)
    ensures
        *final(doc) == document_without(*old(doc), key@),
        document_entries(*final(doc)) == entries_without(document_entries(*old(doc)), key@),
{
    doc.remove(key);
}

/// The text of a document, as `toml_edit` writes it: a function of the document.
#[verifier::external_body]
pub(crate) fn document_to_text(doc: &toml_edit::DocumentMut) -> (r: String)
    ensures
        r@ == document_text(*doc),
{
    doc.to_string()
}

/// The text of an item, as `toml_edit` writes it: a function of the item.
#[verifier::external_body]
pub(crate) fn item_to_text(item: &toml_edit::Item) -> (r: String)
    ensures
        r@ == item_text(*item),
{
    item.to_string()
}

/// `toml_edit::Item::as_str`: a function of the item.
#[verifier::external_body]
fn item_to_string(item: &toml_edit::Item) -> (r: Option<String>)
    ensures
        opt_view(r) == item_string(*item),
{
    item.as_str().map(|s| s.to_string())
}

/// The text of a new `toml_edit::DocumentMut` once an item has been inserted under a key: a
/// function of both.
#[verifier::external_body]
pub(crate) fn section_to_text(key: &str, item: &toml_edit::Item) -> (r: String)
    ensures
        r@ == section_text(key@, *item),
{
    let mut doc = toml_edit::DocumentMut::new();
    doc.insert(key, item.clone());
    doc.to_string()
}

/// Serializing a `toml::Value` with `toml::ser::ValueSerializer`, which is how `toml` writes a
/// value: a function of the value; one that cannot be written has none.
#[verifier::external_body]
pub(crate) fn value_to_text(value: &toml::Value) -> (r: Option<String>)
    ensures
        opt_view(r) == value_text(*value),
{
    let mut out = String::new();
    serde::Serialize::serialize(value, toml::ser::ValueSerializer::new(&mut out)).ok()?;
    Some(out)
}

/// Serializing a `toml::Value` with `toml_edit::ser::ValueSerializer`: a function of the value;
/// one that cannot be written has none.
#[verifier::external_body]
pub(crate) fn value_to_item(value: &toml::Value) -> (r: Option<toml_edit::Item>)
    ensures
        r == value_item(*value),
        r is Some ==> !is_absent(r->0),
{
    let made = serde::Serialize::serialize(value, toml_edit::ser::ValueSerializer::new()).ok()?;
    Some(toml_edit::Item::Value(made))
}

/// Members with their contents.
pub open spec fn contents(members: Seq<(String, toml::Value)>) -> Seq<(Seq<char>, Content)> {
    members.map_values(|m: (String, toml::Value)| (m.0@, content_of(m.1)))
}

/// `toml::Value::as_table` and the entries of the map: the members of a value, where it is a
/// table.
#[verifier::external_body]
pub(crate) fn table_members(value: &toml::Value) -> (r: Option<Vec<(String, toml::Value)>>)
    ensures
        match content_of(*value) {
            Content::Leaf(leaf) => r is None && leaf == *value,
            Content::Table(members) => r is Some && contents(r->0@) == members,
        },
{
    Some(value.as_table()?.iter().map(|(key, member)| (key.clone(), member.clone())).collect())
}

/// `toml_edit::Key::parse`: the keys between the dots of a text, at least one; a text that needs
/// no quotes is a key of its own. The rest of the grammar is left unsaid.
#[verifier::external_body]
pub(crate) fn parse_key(text: &str) -> (r: Option<Vec<String>>)
    ensures
        r is Some <==> key_path(text@) is Some,
        r is Some ==> views(r->0@) == key_path(text@)->0 && r->0@.len() > 0,
        is_bare_key(text@) ==> r is Some && views(r->0@) == seq![text@],
{
    let keys = toml_edit::Key::parse(text).ok()?;
    Some(keys.iter().map(|key| key.get().to_string()).collect())
}

/// `toml_edit::Item::is_table_like`: a function of the item, which holds of every table.
pub assume_specification[ toml_edit::Item::is_table_like ](item: &toml_edit::Item) -> (r: bool)
    ensures
        r == holds_items(*item),
        table_entries(*item) is Some ==> r,
;

/// `toml_edit::Item::as_table_like` and `TableLike::get`: a function of both, which for a table
/// gives the item of the entry with the key.
#[verifier::external_body]
pub(crate) fn get_inner(item: &toml_edit::Item, key: &str) -> (r: Option<toml_edit::Item>)
    ensures
        r == inner_item(*item, key@),
        table_entries(*item) is Some ==> r == member_of(Some(*item), key@),
{
    item.as_table_like()?.get(key).cloned()
}

/// `toml_edit::Item::as_table_like_mut` and `TableLike::insert` on a copy: a function of all
/// three. A table stays one, has the item under the key, and keeps its other items.
#[verifier::external_body]
pub(crate) fn set_inner(item: &toml_edit::Item, key: &str, inner: &toml_edit::Item) -> (r:
    toml_edit::Item)
    requires
        holds_items(*item),
        !is_absent(*inner),
    ensures
        r == item_with(*item, key@, *inner),
        holds_items(r),
        !is_absent(r),
        table_entries(*item) is Some ==> table_entries(r) is Some && member_of(Some(r), key@)
            == Some(*inner) && forall|other: Seq<char>|
            other != key@ ==> #[trigger] member_of(Some(r), other) == member_of(Some(*item), other),
{
    let mut out = item.clone();
    let _ = out.as_table_like_mut().map(|table| table.insert(key, inner.clone()));
    out
}

/// A new `toml_edit::Table` once an item has been inserted under a key: a function of both, with
/// one entry.
#[verifier::external_body]
pub(crate) fn new_table(key: &str, inner: &toml_edit::Item) -> (r: toml_edit::Item)
    requires
        !is_absent(*inner),
    ensures
        r == table_with(key@, *inner),
        holds_items(r),
        !is_absent(r),
        table_entries(r) == Some(seq![(key@, *inner)]),
{
    let mut table = toml_edit::Table::new();
    table.insert(key, inner.clone());
    toml_edit::Item::Table(table)
}

/// The string under a key of a document.
pub fn string_at(doc: &toml_edit::DocumentMut, key: &str) -> (r: Option<String>)
    ensures
        opt_view(r) == opt_string(entry_at(document_entries(*doc), key@)),
{
    match get_item(doc, key) {
        Some(item) => item_to_string(&item),
        None => None,
    }
}

/// The truth value under a key of a document.
pub fn bool_at(doc: &toml_edit::DocumentMut, key: &str) -> (r: Option<bool>)
    ensures
        r == opt_bool(entry_at(document_entries(*doc), key@)),
{
    match get_item(doc, key) {
        Some(item) => item.as_bool(),
        None => None,
    }
}

/// The integer under a key of a document.
pub fn integer_at(doc: &toml_edit::DocumentMut, key: &str) -> (r: Option<i64>)
    ensures
        r == opt_integer(entry_at(document_entries(*doc), key@)),
{
    match get_item(doc, key) {
        Some(item) => item.as_integer(),
        None => None,
    }
}

/// The item under a key of an item, where that is a table.
pub fn member(item: &Option<toml_edit::Item>, key: &str) -> (r: Option<toml_edit::Item>)
    ensures
        r == member_of(*item, key@),
{
    match item {
        Some(item) => table_item(item, key),
        None => None,
    }
}

/// The string of an optional item.
pub fn string_of(item: &Option<toml_edit::Item>) -> (r: Option<String>)
    ensures
        opt_view(r) == opt_string(*item),
{
    match item {
        Some(item) => item_to_string(item),
        None => None,
    }
}

} // verus!
