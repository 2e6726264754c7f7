//! JSON documents: the values that the rest of the library reads and rewrites, and the
//! passage between them and text.
use vstd::prelude::*;
use vstd::utf8::*;

use crate::text::{opt_ref_view, same_text, without_return};

verus! {

// ---------------------------------------------------------------------------
// The outside types and what they hold
// ---------------------------------------------------------------------------

/// `serde_json::Value`, the value type of the JSON crate.
#[verifier::external_type_specification]
#[verifier::external_body]
pub struct ExValue(serde_json::Value);

/// `serde_json::Number`, the number type of the JSON crate; carried through unread.
#[verifier::external_type_specification]
#[verifier::external_body]
pub struct ExNumber(serde_json::Number);

/// A JSON document as a mathematical value.
#[verifier::ext_equal]
pub enum JsonTree {
    Null,
    Bool(bool),
    Number(serde_json::Number),
    Text(Seq<char>),
    Array(Seq<JsonTree>),
    Object(Map<Seq<char>, JsonTree>),
}

/// The outermost layer of a `serde_json::Value`.
pub enum JsonLayer {
    Null,
    Bool(bool),
    Number(serde_json::Number),
    Text(String),
    Array(Vec<serde_json::Value>),
    Object(Vec<(String, serde_json::Value)>),
}

/// The document that a `serde_json::Value` holds.
pub uninterp spec fn value_tree(v: serde_json::Value) -> JsonTree;

/// The document that `serde_json::from_str` reads from a text, if it is one.
pub uninterp spec fn json_of_text(text: Seq<char>) -> Option<JsonTree>;

/// The document that bytes hold: that of the text which they encode, if they encode one.
pub open spec fn json_of_bytes(bytes: Seq<u8>) -> Option<JsonTree> {
    if valid_utf8(bytes) {
        json_of_text(decode_utf8(bytes))
    } else {
        None
    }
}

/// The text that `serde_json::to_string` writes for a document.
pub uninterp spec fn json_text(tree: JsonTree) -> Seq<char>;

/// The text that `serde_json::to_string_pretty` writes for a document.
pub uninterp spec fn json_pretty_text(tree: JsonTree) -> Seq<char>;

/// The number as an `i64`, where it is an integer of that range.
pub uninterp spec fn number_signed(n: serde_json::Number) -> Option<i64>;

/// The number as a `u64`, where it is an integer of that range.
pub uninterp spec fn number_unsigned(n: serde_json::Number) -> Option<u64>;

/// The JSON number of an `i64`.
pub uninterp spec fn number_of(n: i64) -> serde_json::Number;

/// The keys of a list of members.
pub open spec fn keys_of<V>(entries: Seq<(String, V)>) -> Seq<Seq<char>> {
    entries.map_values(|e: (String, V)| e.0@)
}

/// The document whose outermost layer is given.
pub open spec fn layer_tree(layer: JsonLayer) -> JsonTree {
    match layer {
        JsonLayer::Null => JsonTree::Null,
        JsonLayer::Bool(b) => JsonTree::Bool(b),
        JsonLayer::Number(n) => JsonTree::Number(n),
        JsonLayer::Text(s) => JsonTree::Text(s@),
        JsonLayer::Array(items) => JsonTree::Array(
            items@.map_values(|v: serde_json::Value| value_tree(v)),
        ),
        JsonLayer::Object(entries) => JsonTree::Object(
            Map::new(
                |k: Seq<char>| keys_of(entries@).contains(k),
                |k: Seq<char>| value_tree(entries@[keys_of(entries@).index_of(k)].1),
            ),
        ),
    }
}

/// Whether every number of a document is an integer.
pub open spec fn integers_only(tree: JsonTree) -> bool
    decreases tree,
{
    match tree {
        JsonTree::Number(n) => number_signed(n) is Some || number_unsigned(n) is Some,
        JsonTree::Array(items) => forall|i: int|
            0 <= i < items.len() ==> integers_only(#[trigger] items[i]),
        JsonTree::Object(m) => forall|k: Seq<char>|
            m.contains_key(k) ==> integers_only(#[trigger] m[k]),
        _ => true,
    }
}

/// Whether a document nests at most `depth` arrays and objects.
pub open spec fn nests_at_most(tree: JsonTree, depth: nat) -> bool
    decreases depth,
{
    match tree {
        JsonTree::Array(items) => depth > 0 && forall|i: int|
            0 <= i < items.len() ==> nests_at_most(#[trigger] items[i], (depth - 1) as nat),
        JsonTree::Object(m) => depth > 0 && forall|k: Seq<char>|
            m.contains_key(k) ==> nests_at_most(#[trigger] m[k], (depth - 1) as nat),
        _ => true,
    }
}

/// Whether `serde_json` reads a document back from the text that it writes for it: numbers
/// with a fraction or an exponent are not covered, nor is what is nested too deep.
pub open spec fn reads_back(tree: JsonTree) -> bool {
    integers_only(tree) && nests_at_most(tree, max_depth())
}

/// Whether a document is the other one, but for numbers that are no integers.
pub open spec fn alike(a: JsonTree, b: JsonTree) -> bool
    decreases a,
{
    match a {
        JsonTree::Number(n) => b is Number && (number_signed(n) is Some || number_unsigned(n) is Some
            ==> b == a),
        JsonTree::Array(items) => b is Array && b->Array_0.len() == items.len() && forall|i: int|
            0 <= i < items.len() ==> alike(#[trigger] items[i], b->Array_0[i]),
        JsonTree::Object(m) => b is Object && b->Object_0.dom() == m.dom() && forall|k: Seq<char>|
            m.contains_key(k) ==> alike(#[trigger] m[k], b->Object_0[k]),
        _ => a == b,
    }
}

/// Documents that are alike have members that are.
pub proof fn lemma_alike_members(a: JsonTree, b: JsonTree, key: Seq<char>)
    requires
        alike(a, b),
    ensures
        a.get(key) is Some <==> b.get(key) is Some,
        a.get(key) is Some ==> alike(a.get(key)->0, b.get(key)->0),
        a.text_at(key) == b.text_at(key),
{
    if a is Object {
        assert(a->Object_0.contains_key(key) <==> b->Object_0.contains_key(key));
        if a->Object_0.contains_key(key) {
            assert(alike(a->Object_0[key], b->Object_0[key]));
        }
    }
}

/// A member that reads back can be set in an object that does.
pub proof fn lemma_insert_reads_back(
    m: Map<Seq<char>, JsonTree>,
    key: Seq<char>,
    value: JsonTree,
    depth: nat,
)
    requires
        integers_only(JsonTree::Object(m)),
        nests_at_most(JsonTree::Object(m), depth),
        integers_only(value),
        nests_at_most(value, (depth - 1) as nat),
    ensures
        integers_only(JsonTree::Object(m.insert(key, value))),
        nests_at_most(JsonTree::Object(m.insert(key, value)), depth),
{
    let tree = JsonTree::Object(m);
    let after = m.insert(key, value);
    assert forall|k: Seq<char>| after.contains_key(k) implies integers_only(#[trigger] after[k]) by {
        if k != key {
            assert(tree->Object_0.contains_key(k));
            assert(integers_only(tree->Object_0[k]));
        }
    }
    assert forall|k: Seq<char>| after.contains_key(k) implies nests_at_most(
        #[trigger] after[k],
        (depth - 1) as nat,
    ) by {
        if k != key {
            assert(tree->Object_0.contains_key(k));
            assert(nests_at_most(tree->Object_0[k], (depth - 1) as nat));
        }
    }
}

/// How deep arrays and objects may nest for `serde_json` to read them.
pub open spec fn max_depth() -> nat {
    127
}

/// `serde_json::Number::as_i64`: a function of the number alone.
pub assume_specification[ serde_json::Number::as_i64 ](n: &serde_json::Number) -> (r: Option<i64>)
    ensures
        r == number_signed(*n),
;

/// `serde_json::Number::as_u64`: a function of the number alone.
pub assume_specification[ serde_json::Number::as_u64 ](n: &serde_json::Number) -> (r: Option<u64>)
    ensures
        r == number_unsigned(*n),
;

/// `serde_json::Number::clone` gives the same number.
pub assume_specification[ <serde_json::Number as Clone>::clone ](n: &serde_json::Number) -> (r:
    serde_json::Number)
    ensures
        r == *n,
;

/// `serde_json::Number::from` on an `i64`: the integer itself, which reads back as what it was.
#[verifier::external_body]
fn integer(n: i64) -> (r: serde_json::Number)
    ensures
        r == number_of(n),
        number_signed(r) == Some(n),
        number_unsigned(r) == (if n >= 0 {
            Some(n as u64)
        } else {
            None
        }),
{
    serde_json::Number::from(n)
}

/// `serde_json::from_str`: what it reads is a function of the text, and is not nested deeper
/// than its recursion limit. An empty text holds nothing, and a carriage return at the end makes
/// no difference, since white space may follow a value. The rest of the grammar is left unsaid.
#[verifier::external_body]
fn parse_value(text: &str) -> (r: Option<serde_json::Value>)
    ensures
        r is Some <==> json_of_text(text@) is Some,
        r is Some ==> value_tree(r->0) == json_of_text(text@)->0,
        r is Some ==> nests_at_most(value_tree(r->0), max_depth()),
        text@.len() == 0 ==> r is None,
        r is Some <==> json_of_text(without_return(text@)) is Some,
        r is Some ==> value_tree(r->0) == json_of_text(without_return(text@))->0,
{
    serde_json::from_str(text).ok()
}

/// `serde_json::from_slice`: it reads what `from_str` reads from the text that the bytes
/// encode, and nothing where they are no UTF-8, since every string of a value is decoded.
#[verifier::external_body]
fn parse_value_bytes(bytes: &[u8]) -> (r: Option<serde_json::Value>)
    ensures
        r is Some <==> json_of_bytes(bytes@) is Some,
        r is Some ==> value_tree(r->0) == json_of_bytes(bytes@)->0,
        r is Some ==> nests_at_most(value_tree(r->0), max_depth()),
{
    serde_json::from_slice(bytes).ok()
}

/// Takes the outermost layer off a `serde_json::Value`; the members of an object have
/// distinct keys.
#[verifier::external_body]
fn open_value(v: serde_json::Value) -> (r: JsonLayer)
    ensures
        layer_tree(r) == value_tree(v),
        r is Object ==> keys_of(r->Object_0@).no_duplicates(),
{
    match v {
        serde_json::Value::Null => JsonLayer::Null,
        serde_json::Value::Bool(b) => JsonLayer::Bool(b),
        serde_json::Value::Number(n) => JsonLayer::Number(n),
        serde_json::Value::String(s) => JsonLayer::Text(s),
        serde_json::Value::Array(items) => JsonLayer::Array(items),
        serde_json::Value::Object(map) => JsonLayer::Object(map.into_iter().collect()),
    }
}

/// Builds the `serde_json::Value` with a given outermost layer.
#[verifier::external_body]
fn close_value(layer: JsonLayer) -> (r: serde_json::Value)
    requires
        layer is Object ==> keys_of(layer->Object_0@).no_duplicates(),
    ensures
        value_tree(r) == layer_tree(layer),
{
    match layer {
        JsonLayer::Null => serde_json::Value::Null,
        JsonLayer::Bool(b) => serde_json::Value::Bool(b),
        JsonLayer::Number(n) => serde_json::Value::Number(n),
        JsonLayer::Text(s) => serde_json::Value::String(s),
        JsonLayer::Array(items) => serde_json::Value::Array(items),
        JsonLayer::Object(entries) => serde_json::Value::Object(entries.into_iter().collect()),
    }
}

/// `serde_json::to_string` on a value, which never fails: the text is a function of the
/// document, is not empty, and holds no control character. `from_str` reads the document back
/// from it where it holds integers only and is not nested too deep. Whatever `from_str` reads
/// from it is the document, but for numbers with a fraction or an exponent.
#[verifier::external_body]
fn value_text(v: &serde_json::Value) -> (r: String)
    ensures
        r@ == json_text(value_tree(*v)),
        r@.len() > 0,
        forall|i: int| 0 <= i < r@.len() ==> #[trigger] r@[i] >= ' ',
        reads_back(value_tree(*v)) ==> json_of_text(r@) == Some(value_tree(*v)),
        json_of_text(r@) is Some ==> alike(value_tree(*v), json_of_text(r@)->0),
{
    serde_json::to_string(v).unwrap()
}

/// `serde_json::to_string_pretty` on a value, which never fails: the text is a function of
/// the document.
#[verifier::external_body]
fn value_pretty_text(v: &serde_json::Value) -> (r: String)
    ensures
        r@ == json_pretty_text(value_tree(*v)),
{
    serde_json::to_string_pretty(v).unwrap()
}

// ---------------------------------------------------------------------------
// Documents
// ---------------------------------------------------------------------------

/// A JSON document.
#[derive(Debug, PartialEq)]
pub enum Json {
    Null,
    Bool(bool),
    Number(serde_json::Number),
    Text(String),
    Array(Vec<Json>),
    Object(JsonObject),
}

/// The members of a JSON object; each key occurs once.
#[derive(Debug, PartialEq)]
pub struct JsonObject {
    entries: Vec<(String, Json)>,
}

impl JsonTree {
    /// The member with a key, where the document is an object that has it.
    pub open spec fn get(self, key: Seq<char>) -> Option<JsonTree> {
        match self {
            JsonTree::Object(m) => if m.contains_key(key) {
                Some(m[key])
            } else {
                None
            },
            _ => None,
        }
    }

    /// The text, where the document is one.
    pub open spec fn text(self) -> Option<Seq<char>> {
        match self {
            JsonTree::Text(s) => Some(s),
            _ => None,
        }
    }

    /// The items, where the document is an array.
    pub open spec fn items(self) -> Option<Seq<JsonTree>> {
        match self {
            JsonTree::Array(items) => Some(items),
            _ => None,
        }
    }

    /// The members, where the document is an object.
    pub open spec fn members(self) -> Option<Map<Seq<char>, JsonTree>> {
        match self {
            JsonTree::Object(m) => Some(m),
            _ => None,
        }
    }

    /// The text of the member with a key, where there is one and it is a text.
    pub open spec fn text_at(self, key: Seq<char>) -> Option<Seq<char>> {
        match self.get(key) {
            Some(t) => t.text(),
            None => None,
        }
    }

    /// The member of a member.
    pub open spec fn get_in(self, outer: Seq<char>, inner: Seq<char>) -> Option<JsonTree> {
        match self.get(outer) {
            Some(t) => t.get(inner),
            None => None,
        }
    }
}

/// The documents that a list of values stands for.
pub open spec fn trees(items: Seq<Json>) -> Seq<JsonTree> {
    items.map_values(|j: Json| j@)
}

/// The document that an optional value stands for.
pub open spec fn opt_tree(j: Option<Json>) -> Option<JsonTree> {
    match j {
        Some(j) => Some(j@),
        None => None,
    }
}

/// The document that an optional reference stands for.
pub open spec fn opt_ref_tree(j: Option<&Json>) -> Option<JsonTree> {
    match j {
        Some(j) => Some(j@),
        None => None,
    }
}

impl JsonObject {
    #[verifier::type_invariant]
    spec fn keys_are_distinct(self) -> bool {
        keys_of(self.entries@).no_duplicates()
    }

    /// The members by key.
    pub closed spec fn tree_map(self) -> Map<Seq<char>, JsonTree>
        decreases self,
    {
        Map::new(
            |k: Seq<char>| keys_of(self.entries@).contains(k),
            |k: Seq<char>|
                {
                    let i = keys_of(self.entries@).index_of(k);
                    if 0 <= i < self.entries@.len() {
                        self.entries@[i].1.tree()
                    } else {
                        arbitrary()
                    }
                },
        )
    }

    proof fn lemma_member(self, i: int)
        requires
            keys_of(self.entries@).no_duplicates(),
            0 <= i < self.entries@.len(),
        ensures
            self.tree_map().contains_key(self.entries@[i].0@),
            self.tree_map()[self.entries@[i].0@] == self.entries@[i].1@,
    {
        let keys = keys_of(self.entries@);
        assert(keys[i] == self.entries@[i].0@);
        let k = keys[i];
        let j = keys.index_of(k);
        assert(0 <= j < keys.len() && keys[j] == k);
        assert(i == j);
    }

    proof fn lemma_no_member(self, key: Seq<char>)
        requires
            forall|i: int| 0 <= i < self.entries@.len() ==> self.entries@[i].0@ != key,
        ensures
            !self.tree_map().contains_key(key),
    {
        assert forall|i: int| 0 <= i < keys_of(self.entries@).len() implies keys_of(
            self.entries@,
        )[i] != key by {
            assert(keys_of(self.entries@)[i] == self.entries@[i].0@);
        }
    }

    /// Only keys of entries are keys.
    proof fn lemma_key_position(self, key: Seq<char>) -> (i: int)
        requires
            self.tree_map().contains_key(key),
        ensures
            0 <= i < self.entries@.len(),
            self.entries@[i].0@ == key,
    {
        let keys = keys_of(self.entries@);
        let i = keys.index_of(key);
        assert(keys[i] == self.entries@[i].0@);
        i
    }

    /// An object without members.
    pub fn new() -> (r: JsonObject)
        ensures
            r@ == Map::<Seq<char>, JsonTree>::empty(),
            r.count() == 0,
    {
        let r = JsonObject { entries: Vec::new() };
        proof {
            assert(r@ =~= Map::<Seq<char>, JsonTree>::empty());
        }
        r
    }

    fn position(&self, key: &str) -> (r: Option<usize>)
        ensures
            match r {
                Some(i) => i < self.entries@.len() && self.entries@[i as int].0@ == key@
                    && self@.contains_key(key@) && self@[key@] == self.entries@[i as int].1@,
                None => !self@.contains_key(key@) && forall|i: int|
                    0 <= i < self.entries@.len() ==> self.entries@[i].0@ != key@,
            },
    {
        proof {
            use_type_invariant(self);
        }
        let mut i: usize = 0;
        while i < self.entries.len()
            invariant
                i <= self.entries@.len(),
                keys_of(self.entries@).no_duplicates(),
                forall|j: int| 0 <= j < i ==> self.entries@[j].0@ != key@,
            decreases self.entries@.len() - i,
        {
            if same_text(self.entries[i].0.as_str(), key) {
                proof {
                    self.lemma_member(i as int);
                }
                return Some(i);
            }
            i += 1;
        }
        proof {
            self.lemma_no_member(key@);
        }
        None
    }

    /// The member with a key.
    pub fn get(&self, key: &str) -> (r: Option<&Json>)
        ensures
            opt_ref_tree(r) == JsonTree::Object(self@).get(key@),
    {
        match self.position(key) {
            Some(i) => Some(&self.entries[i].1),
            None => None,
        }
    }

    /// Whether there is a member with a key.
    pub fn contains_key(&self, key: &str) -> (r: bool)
        ensures
            r == self@.contains_key(key@),
    {
        self.position(key).is_some()
    }

    /// How many members there are.
    pub fn len(&self) -> (r: usize)
        ensures
            r == self.count(),
    {
        self.entries.len()
    }

    /// How many members there are.
    pub closed spec fn count(self) -> nat {
        self.entries@.len()
    }

    /// The key of the member at a position.
    pub closed spec fn key_at(self, i: int) -> Seq<char> {
        self.entries@[i].0@
    }

    /// The member at a position: its key and its value.
    pub fn member(&self, i: usize) -> (r: (&String, &Json))
        requires
            i < self.count(),
        ensures
            r.0@ == self.key_at(i as int),
            self@.contains_key(r.0@),
            self@[r.0@] == r.1@,
    {
        proof {
            use_type_invariant(self);
            self.lemma_member(i as int);
        }
        (&self.entries[i].0, &self.entries[i].1)
    }

    /// Every key stands at one position, and every position holds a key.
    pub proof fn lemma_positions(&self)
        ensures
            forall|k: Seq<char>| #[trigger]
                self@.contains_key(k) ==> exists|i: int|
                    0 <= i < self.count() && #[trigger] self.key_at(i) == k,
    {
        assert forall|k: Seq<char>| #[trigger] self@.contains_key(k) implies exists|i: int|
            0 <= i < self.count() && #[trigger] self.key_at(i) == k by {
            let i = self.lemma_key_position(k);
            assert(self.key_at(i) == k);
        }
    }

    /// Sets the member with a key, in its place or as a new member.
    pub fn insert(&mut self, key: String, value: Json)
        ensures
            final(self)@ == old(self)@.insert(key@, value@),
    {
        proof {
            use_type_invariant(&*self);
        }
        let at = self.position(key.as_str());
        let mut entries: Vec<(String, Json)> = Vec::new();
        std::mem::swap(&mut entries, &mut self.entries);
        let ghost before = JsonObject { entries };
        match at {
            Some(i) => {
                let ghost k = entries@[i as int].0;
                entries.set(i, (key, value));
                proof {
                    assert(keys_of(entries@) =~= keys_of(before.entries@));
                }
            },
            None => {
                entries.push((key, value));
                proof {
                    assert(keys_of(entries@) =~= keys_of(before.entries@).push(key@));
                    assert forall|i: int, j: int|
                        0 <= i < j < keys_of(entries@).len() implies keys_of(entries@)[i] != keys_of(
                        entries@,
                    )[j] by {
                        assert(keys_of(before.entries@)[i] == before.entries@[i].0@);
                        if j < before.entries@.len() {
                            assert(keys_of(before.entries@)[j] == before.entries@[j].0@);
                        }
                    }
                }
            },
        }
        self.entries = entries;
        proof {
            let after = *self;
            let expected = before@.insert(key@, value@);
            assert forall|k: Seq<char>| after@.contains_key(k) <==> expected.contains_key(k) by {
                if after@.contains_key(k) {
                    let i = after.lemma_key_position(k);
                    if i < before.entries@.len() && k != key@ {
                        before.lemma_member(i);
                    }
                }
                if expected.contains_key(k) {
                    if k == key@ {
                        let i = if at is Some {
                            at->0 as int
                        } else {
                            before.entries@.len() as int
                        };
                        after.lemma_member(i);
                    } else {
                        let i = before.lemma_key_position(k);
                        after.lemma_member(i);
                    }
                }
            }
            assert forall|k: Seq<char>| after@.contains_key(k) implies after@[k] == expected[k] by {
                let i = after.lemma_key_position(k);
                after.lemma_member(i);
                if k != key@ {
                    assert(after.entries@[i] == before.entries@[i]);
                    before.lemma_member(i);
                    assert(before@[k] == before.entries@[i].1@);
                } else {
                    let j = if at is Some {
                        at->0 as int
                    } else {
                        before.entries@.len() as int
                    };
                    assert(keys_of(after.entries@)[i] == keys_of(after.entries@)[j]);
                    assert(i == j);
                }
            }
            assert(after@ =~= expected);
        }
    }

    /// Takes the member with a key out of the object.
    pub fn take(&mut self, key: &str) -> (r: Option<Json>)
        ensures
            opt_tree(r) == JsonTree::Object(old(self)@).get(key@),
            final(self)@ == old(self)@.remove(key@),
    {
        proof {
            use_type_invariant(&*self);
        }
        let at = match self.position(key) {
            Some(i) => i,
            None => {
                proof {
                    assert(self@ =~= self@.remove(key@));
                }
                return None;
            },
        };
        let mut entries: Vec<(String, Json)> = Vec::new();
        std::mem::swap(&mut entries, &mut self.entries);
        let ghost before = JsonObject { entries };
        let taken = entries.remove(at);
        proof {
            assert(keys_of(entries@) =~= keys_of(before.entries@).remove(at as int));
            assert forall|i: int, j: int|
                0 <= i < j < keys_of(entries@).len() implies keys_of(entries@)[i] != keys_of(
                entries@,
            )[j] by {
                let bi = if i < at { i } else { i + 1 };
                let bj = if j < at { j } else { j + 1 };
                assert(keys_of(before.entries@)[bi] != keys_of(before.entries@)[bj]);
            }
        }
        self.entries = entries;
        proof {
            let after = *self;
            let expected = before@.remove(key@);
            assert forall|k: Seq<char>| after@.contains_key(k) <==> expected.contains_key(k) by {
                if after@.contains_key(k) {
                    let i = after.lemma_key_position(k);
                    let b = if i < at { i } else { i + 1 };
                    assert(before.entries@[b] == after.entries@[i]);
                    before.lemma_member(b);
                    assert(keys_of(before.entries@)[b] != keys_of(before.entries@)[at as int]);
                }
                if expected.contains_key(k) {
                    let b = before.lemma_key_position(k);
                    let i = if b < at { b } else { b - 1 };
                    assert(after.entries@[i] == before.entries@[b]);
                    after.lemma_member(i);
                }
            }
            assert forall|k: Seq<char>| after@.contains_key(k) implies after@[k] == expected[k] by {
                let i = after.lemma_key_position(k);
                let b = if i < at { i } else { i + 1 };
                assert(before.entries@[b] == after.entries@[i]);
                after.lemma_member(i);
                before.lemma_member(b);
                assert(expected.contains_key(k));
                assert(k != key@);
                assert(before@[k] == before.entries@[b].1@);
            }
            assert(after@ =~= expected);
        }
        Some(taken.1)
    }

    /// A copy of the object.
    pub fn copy(&self) -> (r: JsonObject)
        ensures
            r@ == self@,
        decreases self,
    {
        proof {
            use_type_invariant(self);
        }
        let mut entries: Vec<(String, Json)> = Vec::new();
        let mut i: usize = 0;
        while i < self.entries.len()
            invariant
                i <= self.entries@.len(),
                entries@.len() == i,
                keys_of(self.entries@).no_duplicates(),
                forall|j: int|
                    0 <= j < i ==> (#[trigger] entries@[j]).0@ == self.entries@[j].0@
                        && entries@[j].1@ == self.entries@[j].1@,
            decreases self.entries@.len() - i,
        {
            let key = self.entries[i].0.clone();
            let value = self.entries[i].1.copy();
            entries.push((key, value));
            i += 1;
        }
        proof {
            assert(keys_of(entries@) =~= keys_of(self.entries@));
        }
        let r = JsonObject { entries };
        proof {
            lemma_same_entries(r, *self);
        }
        r
    }

    /// The members as a `serde_json` value.
    fn to_value(&self) -> (r: serde_json::Value)
        ensures
            value_tree(r) == JsonTree::Object(self@),
        decreases self,
    {
        proof {
            use_type_invariant(self);
        }
        let mut entries: Vec<(String, serde_json::Value)> = Vec::new();
        let mut i: usize = 0;
        while i < self.entries.len()
            invariant
                i <= self.entries@.len(),
                entries@.len() == i,
                keys_of(self.entries@).no_duplicates(),
                forall|j: int|
                    0 <= j < i ==> (#[trigger] entries@[j]).0@ == self.entries@[j].0@ && value_tree(
                        entries@[j].1,
                    ) == self.entries@[j].1@,
            decreases self.entries@.len() - i,
        {
            let key = self.entries[i].0.clone();
            let value = self.entries[i].1.to_value();
            entries.push((key, value));
            i += 1;
        }
        proof {
            assert(keys_of(entries@) =~= keys_of(self.entries@));
        }
        let ghost listed = entries@;
        let r = close_value(JsonLayer::Object(entries));
        proof {
            let m = value_tree(r)->Object_0;
            assert forall|k: Seq<char>| m.contains_key(k) implies m[k] == self@[k] by {
                let i = keys_of(listed).index_of(k);
                assert(keys_of(listed)[i] == k);
                assert(listed[i].0@ == k);
                self.lemma_member(i);
            }
            assert(m =~= self@);
        }
        r
    }
}

proof fn lemma_same_entries(a: JsonObject, b: JsonObject)
    requires
        a.entries@.len() == b.entries@.len(),
        keys_of(b.entries@).no_duplicates(),
        forall|j: int|
            0 <= j < a.entries@.len() ==> (#[trigger] a.entries@[j]).0@ == b.entries@[j].0@
                && a.entries@[j].1@ == b.entries@[j].1@,
    ensures
        a@ == b@,
{
    assert(keys_of(a.entries@) =~= keys_of(b.entries@));
    assert forall|k: Seq<char>| a@.contains_key(k) implies a@[k] == b@[k] by {
        let i = a.lemma_key_position(k);
        a.lemma_member(i);
        b.lemma_member(i);
    }
    assert(a@ =~= b@);
}

impl View for JsonObject {
    type V = Map<Seq<char>, JsonTree>;

    open spec fn view(&self) -> Map<Seq<char>, JsonTree> {
        self.tree_map()
    }
}

impl View for Json {
    type V = JsonTree;

    open spec fn view(&self) -> JsonTree {
        self.tree()
    }
}

impl Json {
    /// The document as a mathematical value.
    pub open spec fn tree(self) -> JsonTree
        decreases self,
    {
        match self {
            Json::Null => JsonTree::Null,
            Json::Bool(b) => JsonTree::Bool(b),
            Json::Number(n) => JsonTree::Number(n),
            Json::Text(s) => JsonTree::Text(s@),
            Json::Array(items) => JsonTree::Array(
                Seq::new(
                    items@.len(),
                    |i: int|
                        if 0 <= i < items@.len() {
                            items@[i].tree()
                        } else {
                            arbitrary()
                        },
                ),
            ),
            Json::Object(o) => JsonTree::Object(o.tree_map()),
        }
    }

    /// A document that is the text of a string.
    pub fn text(s: &str) -> (r: Json)
        ensures
            r@ == JsonTree::Text(s@),
    {
        Json::Text(s.to_owned())
    }

    /// A document that is an integer.
    pub fn integer(n: i64) -> (r: Json)
        ensures
            r@ == JsonTree::Number(number_of(n)),
            number_signed(number_of(n)) == Some(n),
            number_unsigned(number_of(n)) == (if n >= 0 {
                Some(n as u64)
            } else {
                None
            }),
    {
        Json::Number(integer(n))
    }

    /// The member with a key, where the document is an object that has it.
    pub fn get(&self, key: &str) -> (r: Option<&Json>)
        ensures
            opt_ref_tree(r) == self@.get(key@),
    {
        match self {
            Json::Object(o) => o.get(key),
            _ => None,
        }
    }

    /// The text, where the document is one.
    pub fn as_str(&self) -> (r: Option<&String>)
        ensures
            opt_ref_view(r) == self@.text(),
    {
        match self {
            Json::Text(s) => Some(s),
            _ => None,
        }
    }

    /// The truth value, where the document is one.
    pub fn as_bool(&self) -> (r: Option<bool>)
        ensures
            r == (match self@ {
                JsonTree::Bool(b) => Some(b),
                _ => None,
            }),
    {
        match self {
            Json::Bool(b) => Some(*b),
            _ => None,
        }
    }

    /// The integer, where the document is one of this range.
    pub fn as_i64(&self) -> (r: Option<i64>)
        ensures
            r == (match self@ {
                JsonTree::Number(n) => number_signed(n),
                _ => None,
            }),
    {
        match self {
            Json::Number(n) => n.as_i64(),
            _ => None,
        }
    }

    /// The integer, where the document is one of this range.
    pub fn as_u64(&self) -> (r: Option<u64>)
        ensures
            r == (match self@ {
                JsonTree::Number(n) => number_unsigned(n),
                _ => None,
            }),
    {
        match self {
            Json::Number(n) => n.as_u64(),
            _ => None,
        }
    }

    /// The items, where the document is an array.
    pub fn as_array(&self) -> (r: Option<&Vec<Json>>)
        ensures
            match r {
                Some(items) => self@ == JsonTree::Array(trees(items@)),
                None => self@.items() is None,
            },
    {
        match self {
            Json::Array(items) => {
                proof {
                    lemma_array_tree(*items);
                }
                Some(items)
            },
            _ => None,
        }
    }

    /// The members, where the document is an object.
    pub fn as_object(&self) -> (r: Option<&JsonObject>)
        ensures
            match r {
                Some(o) => self@ == JsonTree::Object(o@),
                None => self@.members() is None,
            },
    {
        match self {
            Json::Object(o) => Some(o),
            _ => None,
        }
    }

    /// The text of the member with a key, where there is one and it is a text.
    pub fn text_at(&self, key: &str) -> (r: Option<&String>)
        ensures
            opt_ref_view(r) == self@.text_at(key@),
    {
        match self.get(key) {
            Some(j) => j.as_str(),
            None => None,
        }
    }

    /// The member of a member.
    pub fn get_in(&self, outer: &str, inner: &str) -> (r: Option<&Json>)
        ensures
            opt_ref_tree(r) == self@.get_in(outer@, inner@),
    {
        match self.get(outer) {
            Some(j) => j.get(inner),
            None => None,
        }
    }

    /// A copy of the document.
    pub fn copy(&self) -> (r: Json)
        ensures
            r@ == self@,
        decreases self,
    {
        match self {
            Json::Null => Json::Null,
            Json::Bool(b) => Json::Bool(*b),
            Json::Number(n) => Json::Number(n.clone()),
            Json::Text(s) => Json::Text(s.clone()),
            Json::Array(items) => {
                let mut out: Vec<Json> = Vec::new();
                let mut i: usize = 0;
                while i < items.len()
                    invariant
                        i <= items@.len(),
                        out@.len() == i,
                        self == Json::Array(*items),
                        forall|j: int| 0 <= j < i ==> (#[trigger] out@[j])@ == items@[j]@,
                    decreases items@.len() - i,
                {
                    proof {
                        lemma_items_are_smaller(*self, i as int);
                    }
                    out.push(items[i].copy());
                    i += 1;
                }
                proof {
                    lemma_array_tree(*items);
                    lemma_array_tree(out);
                    assert(trees(out@) =~= trees(items@));
                }
                Json::Array(out)
            },
            Json::Object(o) => Json::Object(o.copy()),
        }
    }

    fn to_value(&self) -> (r: serde_json::Value)
        ensures
            value_tree(r) == self@,
        decreases self,
    {
        match self {
            Json::Null => close_value(JsonLayer::Null),
            Json::Bool(b) => close_value(JsonLayer::Bool(*b)),
            Json::Number(n) => close_value(JsonLayer::Number(n.clone())),
            Json::Text(s) => close_value(JsonLayer::Text(s.clone())),
            Json::Array(items) => {
                let mut out: Vec<serde_json::Value> = Vec::new();
                let mut i: usize = 0;
                while i < items.len()
                    invariant
                        i <= items@.len(),
                        out@.len() == i,
                        self == Json::Array(*items),
                        forall|j: int| 0 <= j < i ==> value_tree(#[trigger] out@[j]) == items@[j]@,
                    decreases items@.len() - i,
                {
                    proof {
                        lemma_items_are_smaller(*self, i as int);
                    }
                    out.push(items[i].to_value());
                    i += 1;
                }
                proof {
                    lemma_array_tree(*items);
                    assert(out@.map_values(|v: serde_json::Value| value_tree(v)) =~= trees(items@));
                }
                close_value(JsonLayer::Array(out))
            },
            Json::Object(o) => o.to_value(),
        }
    }

    /// The document in compact notation.
    pub fn render(&self) -> (r: String)
        ensures
            r@ == json_text(self@),
            r@.len() > 0,
            forall|i: int| 0 <= i < r@.len() ==> #[trigger] r@[i] >= ' ',
            reads_back(self@) ==> json_of_text(r@) == Some(self@),
            json_of_text(r@) is Some ==> alike(self@, json_of_text(r@)->0),
    {
        value_text(&self.to_value())
    }

    /// The document in indented notation.
    pub fn render_pretty(&self) -> (r: String)
        ensures
            r@ == json_pretty_text(self@),
    {
        value_pretty_text(&self.to_value())
    }
}

proof fn lemma_items_are_smaller(j: Json, i: int)
    requires
        j is Array,
        0 <= i < j->Array_0@.len(),
    ensures
        decreases_to!(j => j->Array_0@[i]),
{
    assert(decreases_to!(j => j->Array_0));
    assert(decreases_to!(j->Array_0 => j->Array_0@));
    assert(decreases_to!(j->Array_0@ => j->Array_0@[i]));
}

/// The document of an array holds the documents of its items.
pub proof fn lemma_array_tree(items: Vec<Json>)
    ensures
        Json::Array(items)@ == JsonTree::Array(trees(items@)),
{
    assert(Json::Array(items)@->Array_0 =~= trees(items@));
}

fn from_value(v: serde_json::Value) -> (r: Json)
    ensures
        r@ == value_tree(v),
    decreases value_tree(v),
{
    let ghost whole = value_tree(v);
    match open_value(v) {
        JsonLayer::Null => Json::Null,
        JsonLayer::Bool(b) => Json::Bool(b),
        JsonLayer::Number(n) => Json::Number(n),
        JsonLayer::Text(s) => Json::Text(s),
        JsonLayer::Array(items) => {
            let ghost listed = items@;
            let mut out: Vec<Json> = Vec::new();
            for item in it: items
                invariant
                    it.seq() == listed,
                    whole == value_tree(v),
                    whole == JsonTree::Array(
                        listed.map_values(|v: serde_json::Value| value_tree(v)),
                    ),
                    out@.len() == it.index(),
                    forall|j: int|
                        0 <= j < out@.len() ==> (#[trigger] out@[j])@ == value_tree(listed[j]),
            {
                proof {
                    assert(item == listed[it.index() as int]);
                    assert(whole->Array_0[it.index() as int] == value_tree(item));
                    assert(decreases_to!(whole => whole->Array_0));
                    assert(decreases_to!(whole->Array_0 => whole->Array_0[it.index() as int]));
                }
                out.push(from_value(item));
            }
            proof {
                lemma_array_tree(out);
                assert(trees(out@) =~= listed.map_values(|v: serde_json::Value| value_tree(v)));
            }
            Json::Array(out)
        },
        JsonLayer::Object(members) => {
            let ghost listed = members@;
            let mut entries: Vec<(String, Json)> = Vec::new();
            for member in it: members
                invariant
                    it.seq() == listed,
                    whole == value_tree(v),
                    whole == layer_tree(JsonLayer::Object(members)),
                    members@ == listed,
                    keys_of(listed).no_duplicates(),
                    entries@.len() == it.index(),
                    forall|j: int|
                        0 <= j < entries@.len() ==> (#[trigger] entries@[j]).0@ == listed[j].0@
                            && entries@[j].1@ == value_tree(listed[j].1),
            {
                proof {
                    let i = it.index() as int;
                    lemma_listed_member(listed, i);
                    assert(member == listed[i]);
                    lemma_finite_keys(listed, whole->Object_0);
                    assert(whole->Object_0[member.0@] == value_tree(member.1));
                    assert(decreases_to!(whole => whole->Object_0));
                    assert(decreases_to!(whole->Object_0 => whole->Object_0[member.0@]));
                }
                entries.push((member.0, from_value(member.1)));
            }
            proof {
                assert(keys_of(entries@) =~= keys_of(listed));
            }
            let o = JsonObject { entries };
            proof {
                let m = whole->Object_0;
                assert forall|k: Seq<char>| m.contains_key(k) implies m[k] == o@[k] by {
                    let i = keys_of(listed).index_of(k);
                    assert(keys_of(listed)[i] == k);
                    lemma_listed_member(listed, i);
                    o.lemma_member(i);
                }
                assert(m =~= o@);
            }
            Json::Object(o)
        },
    }
}

proof fn lemma_listed_member(listed: Seq<(String, serde_json::Value)>, i: int)
    requires
        keys_of(listed).no_duplicates(),
        0 <= i < listed.len(),
    ensures
        keys_of(listed).contains(listed[i].0@),
        keys_of(listed).index_of(listed[i].0@) == i,
{
    let keys = keys_of(listed);
    assert(keys[i] == listed[i].0@);
    let j = keys.index_of(keys[i]);
    assert(0 <= j < keys.len() && keys[j] == keys[i]);
}

proof fn lemma_finite_keys(
    listed: Seq<(String, serde_json::Value)>,
    m: Map<Seq<char>, JsonTree>,
)
    requires
        forall|k: Seq<char>| m.contains_key(k) <==> keys_of(listed).contains(k),
    ensures
        m.dom().finite(),
{
    assert(m.dom() =~= keys_of(listed).to_set());
}

/// Reads a document from a text.
pub fn parse(text: &str) -> (r: Option<Json>)
    ensures
        opt_tree(r) == json_of_text(text@),
        r is Some ==> nests_at_most(r->0@, max_depth()),
        text@.len() == 0 ==> r is None,
        json_of_text(without_return(text@)) == json_of_text(text@),
{
    match parse_value(text) {
        Some(v) => Some(from_value(v)),
        None => None,
    }
}

/// Reads a document from bytes.
pub fn parse_bytes(bytes: &[u8]) -> (r: Option<Json>)
    ensures
        opt_tree(r) == json_of_bytes(bytes@),
        r is Some ==> nests_at_most(r->0@, max_depth()),
{
    match parse_value_bytes(bytes) {
        Some(v) => Some(from_value(v)),
        None => None,
    }
}

} // verus!
