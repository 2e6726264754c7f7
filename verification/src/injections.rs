//! Injected items: turning rollout items that strict providers reject into plain messages,
//! and moving the byte checkpoints of the projections that were built from a rollout.
use vstd::prelude::*;

use crate::json::{parse, Json, JsonObject};
use crate::json::{
    alike, json_of_text, json_text, lemma_alike_members, lemma_array_tree, opt_tree, trees,
    JsonTree,
};
use crate::sessions::{invalid_tool_name, is_rollout_name, normalize_tool_name};
use crate::sessions::{
    is_misnamed, normalized_names_are_valid, normalized_tool_name, payload_of, renamed,
    rollout_name, Members,
};
use crate::lists::{
    lemma_filter_map_step, lemma_filter_step, lemma_no_items, lemma_total_step, total,
};
use crate::paths::{join_path, path_below};
use crate::text::{
    byte_len, chars_of, contains, ends_with, find_last, list_contains, records, same_text, strip_prefix, trim_end,
    CharClass,
};
use crate::text::{
    concat, contains_text, is_record, last_index, lemma_concat_add, lemma_records,
    lemma_utf8_len_add, lemma_utf8_len_positive, opt_view, records_concatenate_to_the_text,
    records_of, records_read_back, trim_back, utf8_len, views, without_prefix,
};

verus! {

// ---------------------------------------------------------------------------
// What an item is
// ---------------------------------------------------------------------------

/// The type that an item names.
pub open spec fn item_type(m: Members) -> Option<Seq<char>> {
    JsonTree::Object(m).text_at("type"@)
}

/// Whether a character is a hexadecimal digit of ASCII.
pub open spec fn hex_char(c: char) -> bool {
    ('0' <= c && c <= '9') || ('a' <= c && c <= 'f') || ('A' <= c && c <= 'F')
}

/// Whether a text is a UUID: groups of 8, 4, 4, 4 and 12 hexadecimal digits with dashes
/// between them.
pub open spec fn is_uuid(s: Seq<char>) -> bool {
    s.len() == 36 && forall|i: int|
        0 <= i < 36 ==> if i == 8 || i == 13 || i == 18 || i == 23 {
            #[trigger] s[i] == '-'
        } else {
            hex_char(s[i])
        }
}

/// Whether a text is not empty and holds decimal digits only.
pub open spec fn is_digits(s: Seq<char>) -> bool {
    s.len() > 0 && forall|i: int| 0 <= i < s.len() ==> '0' <= #[trigger] s[i] && s[i] <= '9'
}

/// Whether encrypted content stands for none: absent, null, or a UUID with a counter.
pub open spec fn is_placeholder(content: Option<JsonTree>) -> bool {
    match content {
        None => true,
        Some(JsonTree::Null) => true,
        Some(JsonTree::Text(s)) => match last_index(s, '-') {
            Some(i) => is_uuid(s.take(i as int)) && is_digits(s.skip(i as int + 1)),
            None => false,
        },
        _ => false,
    }
}

/// Whether a part is one of text of the given type.
pub open spec fn is_text_part(part: JsonTree, kind: Seq<char>) -> bool {
    part.text_at("type"@) == Some(kind) && part.text_at("text"@) is Some
}

/// Whether all parts are ones of text of the given type.
pub open spec fn all_text_parts(parts: Seq<JsonTree>, kind: Seq<char>) -> bool {
    forall|i: int| 0 <= i < parts.len() ==> is_text_part(#[trigger] parts[i], kind)
}

/// The items of a member, where it is an array.
pub open spec fn items_at(m: Members, key: Seq<char>) -> Option<Seq<JsonTree>> {
    match JsonTree::Object(m).get(key) {
        Some(t) => t.items(),
        None => None,
    }
}

/// Whether an item is reasoning that another provider left in plain text: a UUID for its id,
/// no encrypted content, and text parts only.
pub open spec fn is_foreign_reasoning(m: Members) -> bool {
    &&& item_type(m) == Some("reasoning"@)
    &&& JsonTree::Object(m).text_at("id"@) is Some
    &&& is_uuid(JsonTree::Object(m).text_at("id"@)->0)
    &&& is_placeholder(JsonTree::Object(m).get("encrypted_content"@))
    &&& items_at(m, "content"@) is Some
    &&& items_at(m, "content"@)->0.len() > 0
    &&& all_text_parts(items_at(m, "content"@)->0, "reasoning_text"@)
    &&& items_at(m, "summary"@) is Some
    &&& all_text_parts(items_at(m, "summary"@)->0, "summary_text"@)
}

/// Whether an item is an injected output of the app: one of its known tools, and paired with
/// no call.
pub open spec fn is_orphan(m: Members) -> bool {
    let item = JsonTree::Object(m);
    &&& item_type(m) == Some("function_call_output"@)
    &&& item.text_at("namespace"@) == Some("codex_app"@)
    &&& item.text_at("name"@) == Some("automation_update"@) || item.text_at("name"@) == Some(
        "send_message_to_thread"@,
    )
    &&& item.text_at("output"@) is Some
    &&& !m.contains_key("call_id"@)
}

/// Whether an item is a message that kept the id of a tool output.
pub open spec fn is_relabelled(m: Members) -> bool {
    item_type(m) == Some("message"@) && JsonTree::Object(m).text_at("id"@) is Some && without_prefix(
        JsonTree::Object(m).text_at("id"@)->0,
        "fco_"@,
    ) is Some
}

// ---------------------------------------------------------------------------
// What an item becomes
// ---------------------------------------------------------------------------

/// A part of text.
pub open spec fn text_part(kind: Seq<char>, text: JsonTree) -> JsonTree {
    JsonTree::Object(Map::empty().insert("type"@, JsonTree::Text(kind)).insert("text"@, text))
}

/// The text parts as parts of output text.
pub open spec fn output_parts(parts: Seq<JsonTree>) -> Seq<JsonTree> {
    parts.map_values(
        |part: JsonTree| text_part("output_text"@, JsonTree::Text(part.text_at("text"@)->0)),
    )
}

/// The members with the metadata that an item passes through, where it does.
pub open spec fn with_passthrough(made: Members, item: Members) -> Members {
    let key = "internal_chat_message_metadata_passthrough"@;
    if item.contains_key(key) {
        made.insert(key, item[key])
    } else {
        made
    }
}

/// The assistant message of analysis that stands for foreign reasoning: the texts of its
/// summary, then those of its content.
pub open spec fn analysis_message(m: Members) -> Members {
    let id = JsonTree::Object(m).text_at("id"@)->0;
    let parts = output_parts(items_at(m, "summary"@)->0 + items_at(m, "content"@)->0);
    with_passthrough(
        Map::empty().insert("type"@, JsonTree::Text("message"@)).insert(
            "id"@,
            JsonTree::Text("msg_"@ + id),
        ).insert("role"@, JsonTree::Text("assistant"@)).insert(
            "channel"@,
            JsonTree::Text("analysis"@),
        ).insert("content"@, JsonTree::Array(parts)),
        m,
    )
}

/// The message id that stands for the id of an output.
pub open spec fn message_id(id: Seq<char>) -> Seq<char> {
    if without_prefix(id, "msg_"@) is Some {
        id
    } else {
        match without_prefix(id, "fco_"@) {
            Some(suffix) => "msg_"@ + suffix,
            None => "msg_"@ + id,
        }
    }
}

/// The user message that stands for an injected output: its text, under its id.
pub open spec fn user_message(m: Members) -> Members {
    let item = JsonTree::Object(m);
    let typed = Map::empty().insert("type"@, JsonTree::Text("message"@));
    let named = match item.text_at("id"@) {
        Some(id) => typed.insert("id"@, JsonTree::Text(message_id(id))),
        None => typed,
    };
    let part = text_part("input_text"@, JsonTree::Text(item.text_at("output"@)->0));
    with_passthrough(
        named.insert("role"@, JsonTree::Text("user"@)).insert(
            "content"@,
            JsonTree::Array(seq![part]),
        ),
        m,
    )
}

/// What replaces an item that strict providers reject.
pub open spec fn item_repair(item: JsonTree) -> Option<JsonTree> {
    match item {
        JsonTree::Object(m) => if is_misnamed(m) {
            Some(JsonTree::Object(renamed(m)))
        } else if is_relabelled(m) {
            let id = JsonTree::Object(m).text_at("id"@)->0;
            Some(
                JsonTree::Object(
                    m.insert("id"@, JsonTree::Text("msg_"@ + without_prefix(id, "fco_"@)->0)),
                ),
            )
        } else if is_foreign_reasoning(m) {
            Some(JsonTree::Object(analysis_message(m)))
        } else if is_orphan(m) {
            Some(JsonTree::Object(user_message(m)))
        } else {
            None
        },
        _ => None,
    }
}

/// An item after a repair.
pub open spec fn repaired_item(item: JsonTree) -> JsonTree {
    match item_repair(item) {
        Some(made) => made,
        None => item,
    }
}

/// The items after a repair, one for one.
pub open spec fn repaired_items(items: Seq<JsonTree>) -> Seq<JsonTree> {
    items.map_values(|item: JsonTree| repaired_item(item))
}

/// Whether any of the items is to be repaired.
pub open spec fn any_repair(items: Seq<JsonTree>) -> bool {
    exists|i: int| 0 <= i < items.len() && item_repair(#[trigger] items[i]) is Some
}

/// The replacement history of a compacted row.
pub open spec fn compacted_items(row: JsonTree) -> Option<Seq<JsonTree>> {
    match row.get_in("payload"@, "replacement_history"@) {
        Some(t) => t.items(),
        None => None,
    }
}

/// What replaces a row that holds an item which strict providers reject: the item of a
/// response row, or any of those of a compacted one.
pub open spec fn row_repair(row: JsonTree) -> Option<JsonTree> {
    if row.text_at("type"@) == Some("response_item"@) {
        match row.get("payload"@) {
            Some(item) => match item_repair(item) {
                Some(made) => Some(JsonTree::Object(row->Object_0.insert("payload"@, made))),
                None => None,
            },
            None => None,
        }
    } else if row.text_at("type"@) == Some("compacted"@) {
        match compacted_items(row) {
            Some(items) => if any_repair(items) {
                let payload = payload_of(row)->0.insert(
                    "replacement_history"@,
                    JsonTree::Array(repaired_items(items)),
                );
                Some(JsonTree::Object(row->Object_0.insert("payload"@, JsonTree::Object(payload))))
            } else {
                None
            },
            None => None,
        }
    } else {
        None
    }
}

/// What replaces a line that is such a row and names its type in plain letters.
pub open spec fn injected_line_repair(line: Seq<char>) -> Option<Seq<char>> {
    if !contains_text(line, "\"response_item\""@) && !contains_text(line, "\"compacted\""@) {
        None
    } else {
        match json_of_text(line) {
            Some(row) => match row_repair(row) {
                Some(made) => Some(json_text(made)),
                None => None,
            },
            None => None,
        }
    }
}

// ---------------------------------------------------------------------------
// Repairs are final
// ---------------------------------------------------------------------------

proof fn lemma_item_words()
    ensures
        "type"@ != "name"@,
        "type"@ != "id"@,
        "type"@ != "role"@,
        "type"@ != "channel"@,
        "type"@ != "content"@,
        "type"@ != "payload"@,
        "type"@ != "internal_chat_message_metadata_passthrough"@,
        "id"@ != "role"@,
        "id"@ != "channel"@,
        "id"@ != "content"@,
        "id"@ != "internal_chat_message_metadata_passthrough"@,
        "content"@ != "internal_chat_message_metadata_passthrough"@,
        "type"@ != "text"@,
        "message"@ != "function_call"@,
        "message"@ != "custom_tool_call"@,
        "message"@ != "reasoning"@,
        "message"@ != "function_call_output"@,
        "function_call"@ != "reasoning"@,
        "function_call"@ != "function_call_output"@,
        "custom_tool_call"@ != "reasoning"@,
        "custom_tool_call"@ != "function_call_output"@,
        "reasoning"@ != "function_call_output"@,
        "response_item"@ != "compacted"@,
{
    reveal_strlit("type");
    reveal_strlit("name");
    reveal_strlit("id");
    reveal_strlit("role");
    reveal_strlit("channel");
    reveal_strlit("content");
    reveal_strlit("payload");
    reveal_strlit("text");
    reveal_strlit("internal_chat_message_metadata_passthrough");
    reveal_strlit("message");
    reveal_strlit("function_call");
    reveal_strlit("custom_tool_call");
    reveal_strlit("reasoning");
    reveal_strlit("function_call_output");
    reveal_strlit("response_item");
    reveal_strlit("compacted");
    assert("type"@[0] == 't' && "type"@[1] == 'y' && "type"@.len() == 4);
    assert("text"@[1] == 'e');
    assert("name"@[0] == 'n');
    assert("role"@[0] == 'r');
    assert("id"@.len() == 2);
    assert("role"@.len() == 4);
    assert("channel"@.len() == 7);
    assert("content"@.len() == 7);
    assert("payload"@.len() == 7);
    assert("internal_chat_message_metadata_passthrough"@.len() == 42);
    assert("message"@.len() == 7);
    assert("function_call"@.len() == 13);
    assert("custom_tool_call"@.len() == 16);
    assert("reasoning"@.len() == 9);
    assert("function_call_output"@.len() == 20);
    assert("response_item"@.len() == 13);
    assert("compacted"@.len() == 9);
}

proof fn lemma_message_ids(suffix: Seq<char>)
    ensures
        without_prefix("msg_"@ + suffix, "fco_"@) is None,
        without_prefix("msg_"@ + suffix, "msg_"@) is Some,
{
    reveal_strlit("msg_");
    reveal_strlit("fco_");
    assert(("msg_"@ + suffix)[0] == 'm');
    assert("fco_"@[0] == 'f');
    assert("fco_"@.len() == 4);
    assert(("msg_"@ + suffix).take(4)[0] == 'm');
    assert(("msg_"@ + suffix).take(4) =~= "msg_"@);
}

/// A message whose id does not begin like that of an output is left alone.
proof fn lemma_messages_stay(m: Members)
    requires
        item_type(m) == Some("message"@),
        JsonTree::Object(m).text_at("id"@) is Some ==> without_prefix(
            JsonTree::Object(m).text_at("id"@)->0,
            "fco_"@,
        ) is None,
    ensures
        item_repair(JsonTree::Object(m)) is None,
{
    lemma_item_words();
}

/// A repaired item needs no further repair.
pub proof fn an_item_repair_is_final(item: JsonTree)
    ensures
        item_repair(repaired_item(item)) is None,
{
    if item_repair(item) is Some {
        lemma_item_words();
        let m = item->Object_0;
        let made = item_repair(item)->0->Object_0;
        let old_id = JsonTree::Object(m).text_at("id"@);
        if is_misnamed(m) {
            normalized_names_are_valid(JsonTree::Object(m).text_at("name"@)->0);
            assert(JsonTree::Object(made).text_at("name"@) == Some(
                normalized_tool_name(JsonTree::Object(m).text_at("name"@)->0),
            ));
            assert(item_type(made) == item_type(m));
        } else if is_relabelled(m) {
            lemma_message_ids(without_prefix(old_id->0, "fco_"@)->0);
            lemma_messages_stay(made);
        } else if is_foreign_reasoning(m) {
            lemma_message_ids(old_id->0);
            assert(JsonTree::Object(made).text_at("id"@) == Some("msg_"@ + old_id->0));
            lemma_messages_stay(made);
        } else {
            if old_id is Some {
                let id = old_id->0;
                lemma_message_ids(id);
                if without_prefix(id, "fco_"@) is Some {
                    lemma_message_ids(without_prefix(id, "fco_"@)->0);
                }
                if without_prefix(id, "msg_"@) is Some {
                    reveal_strlit("msg_");
                    reveal_strlit("fco_");
                    assert(id.take(4)[0] == id[0]);
                    assert("msg_"@[0] == 'm' && "fco_"@[0] == 'f');
                    assert("msg_"@.len() == 4 && "fco_"@.len() == 4);
                }
                assert(JsonTree::Object(made).text_at("id"@) == Some(message_id(id)));
            } else {
                assert(JsonTree::Object(made).text_at("id"@) is None);
            }
            lemma_messages_stay(made);
        }
    }
}

/// A repaired row needs no further repair.
pub proof fn a_row_repair_is_final(row: JsonTree)
    requires
        row_repair(row) is Some,
    ensures
        row_repair(row_repair(row)->0) is None,
{
    lemma_item_words();
    let made = row_repair(row)->0;
    assert(made.text_at("type"@) == row.text_at("type"@));
    if row.text_at("type"@) == Some("response_item"@) {
        an_item_repair_is_final(row.get("payload"@)->0);
    } else {
        let items = compacted_items(row)->0;
        assert(compacted_items(made) == Some(repaired_items(items)));
        assert forall|i: int| 0 <= i < items.len() implies item_repair(
            #[trigger] repaired_items(items)[i],
        ) is None by {
            an_item_repair_is_final(items[i]);
        }
    }
}

/// The user message for an injected output carries the text of the output.
pub proof fn injected_text_is_kept(m: Members)
    requires
        is_orphan(m),
    ensures
        item_repair(JsonTree::Object(m)) is Some,
        items_at(user_message(m), "content"@) is Some,
        items_at(user_message(m), "content"@)->0.len() == 1,
        items_at(user_message(m), "content"@)->0[0].text_at("text"@) == JsonTree::Object(m).text_at(
            "output"@,
        ),
{
    lemma_item_words();
}

/// The analysis message for foreign reasoning carries every text of it, in order.
pub proof fn reasoning_text_is_kept(m: Members, i: int)
    requires
        is_foreign_reasoning(m),
        0 <= i < items_at(m, "summary"@)->0.len() + items_at(m, "content"@)->0.len(),
    ensures
        items_at(analysis_message(m), "content"@) is Some,
        items_at(analysis_message(m), "content"@)->0.len() == items_at(m, "summary"@)->0.len()
            + items_at(m, "content"@)->0.len(),
        items_at(analysis_message(m), "content"@)->0[i].text_at("text"@) == (items_at(
            m,
            "summary"@,
        )->0 + items_at(m, "content"@)->0)[i].text_at("text"@),
{
    lemma_item_words();
    let parts = items_at(m, "summary"@)->0 + items_at(m, "content"@)->0;
    let n = items_at(m, "summary"@)->0.len() as int;
    assert(items_at(analysis_message(m), "content"@) == Some(output_parts(parts)));
    if i < n {
        assert(parts[i] == items_at(m, "summary"@)->0[i]);
    } else {
        assert(parts[i] == items_at(m, "content"@)->0[i - n]);
    }
}

// ---------------------------------------------------------------------------
// Repairing items
// ---------------------------------------------------------------------------

fn is_hex_char(c: char) -> (r: bool)
    ensures
        r == hex_char(c),
{
    ('0' <= c && c <= '9') || ('a' <= c && c <= 'f') || ('A' <= c && c <= 'F')
}

fn chars_are_uuid(chars: &Vec<char>, to: usize) -> (r: bool)
    requires
        to <= chars@.len(),
    ensures
        r == is_uuid(chars@.take(to as int)),
{
    if to != 36 {
        return false;
    }
    let ghost s = chars@.take(36);
    let mut i: usize = 0;
    while i < 36
        invariant
            i <= 36 <= chars@.len(),
            to == 36,
            s == chars@.take(36),
            forall|j: int|
                0 <= j < i ==> if j == 8 || j == 13 || j == 18 || j == 23 {
                    #[trigger] s[j] == '-'
                } else {
                    hex_char(s[j])
                },
        decreases 36 - i,
    {
        let c = chars[i];
        proof {
            assert(s[i as int] == c);
        }
        let fits = if i == 8 || i == 13 || i == 18 || i == 23 {
            c == '-'
        } else {
            is_hex_char(c)
        };
        if !fits {
            return false;
        }
        i += 1;
    }
    true
}

fn chars_are_digits(chars: &Vec<char>, from: usize) -> (r: bool)
    requires
        from <= chars@.len(),
    ensures
        r == is_digits(chars@.skip(from as int)),
{
    let ghost s = chars@.skip(from as int);
    if from == chars.len() {
        return false;
    }
    let mut i: usize = from;
    while i < chars.len()
        invariant
            from <= i <= chars@.len(),
            s == chars@.skip(from as int),
            forall|j: int| 0 <= j < i - from ==> '0' <= #[trigger] s[j] && s[j] <= '9',
        decreases chars@.len() - i,
    {
        let c = chars[i];
        proof {
            assert(s[i - from] == c);
        }
        if !('0' <= c && c <= '9') {
            return false;
        }
        i += 1;
    }
    true
}

fn stands_for_none(content: Option<&Json>) -> (r: bool)
    ensures
        r == is_placeholder(
            match content {
                Some(j) => Some(j@),
                None => None,
            },
        ),
{
    match content {
        None => true,
        Some(Json::Null) => true,
        Some(Json::Text(s)) => {
            let chars = chars_of(s.as_str());
            match find_last(&chars, '-') {
                Some(i) => chars_are_uuid(&chars, i) && chars_are_digits(&chars, i + 1),
                None => false,
            }
        },
        _ => false,
    }
}

fn are_text_parts(parts: &Vec<Json>, kind: &str) -> (r: bool)
    ensures
        r == all_text_parts(trees(parts@), kind@),
{
    let mut i: usize = 0;
    while i < parts.len()
        invariant
            i <= parts@.len(),
            forall|j: int| 0 <= j < i ==> is_text_part(#[trigger] trees(parts@)[j], kind@),
        decreases parts@.len() - i,
    {
        let part = &parts[i];
        proof {
            assert(trees(parts@)[i as int] == part@);
        }
        let fits = match part.text_at("type") {
            Some(found) => same_text(found.as_str(), kind) && part.text_at("text").is_some(),
            None => false,
        };
        if !fits {
            return false;
        }
        i += 1;
    }
    true
}

fn make_text_part(kind: &str, text: &str) -> (r: Json)
    ensures
        r@ == text_part(kind@, JsonTree::Text(text@)),
{
    let mut part = JsonObject::new();
    part.insert("type".to_owned(), Json::text(kind));
    part.insert("text".to_owned(), Json::text(text));
    Json::Object(part)
}

fn push_output_parts(out: &mut Vec<Json>, parts: &Vec<Json>)
    requires
        forall|j: int| 0 <= j < parts@.len() ==> (#[trigger] trees(parts@)[j]).text_at("text"@) is Some,
    ensures
        trees(final(out)@) == trees(old(out)@) + output_parts(trees(parts@)),
{
    let ghost before = trees(out@);
    let mut i: usize = 0;
    proof {
        assert(before + output_parts(trees(parts@)).take(0) =~= before);
    }
    while i < parts.len()
        invariant
            i <= parts@.len(),
            forall|j: int|
                0 <= j < parts@.len() ==> (#[trigger] trees(parts@)[j]).text_at("text"@) is Some,
            trees(out@) == before + output_parts(trees(parts@)).take(i as int),
        decreases parts@.len() - i,
    {
        proof {
            assert(trees(parts@)[i as int] == parts@[i as int]@);
        }
        if let Some(text) = parts[i].text_at("text") {
            let part = make_text_part("output_text", text.as_str());
            let ghost old_trees = trees(out@);
            out.push(part);
            proof {
                assert(trees(out@) =~= old_trees.push(part@));
                assert(output_parts(trees(parts@))[i as int] == part@);
                assert(output_parts(trees(parts@)).take(i + 1) =~= output_parts(
                    trees(parts@),
                ).take(i as int).push(part@));
                assert(trees(out@) =~= before + output_parts(trees(parts@)).take(i + 1));
            }
        }
        i += 1;
    }
    proof {
        assert(output_parts(trees(parts@)).take(parts@.len() as int) =~= output_parts(
            trees(parts@),
        ));
    }
}

fn pass_metadata(made: &mut JsonObject, item: &JsonObject)
    ensures
        final(made)@ == with_passthrough(old(made)@, item@),
{
    if let Some(metadata) = item.get("internal_chat_message_metadata_passthrough") {
        made.insert("internal_chat_message_metadata_passthrough".to_owned(), metadata.copy());
    }
}

fn prefixed(prefix: &str, tail: &str) -> (r: String)
    ensures
        r@ == prefix@ + tail@,
{
    let mut out = prefix.to_owned();
    out.push_str(tail);
    out
}

fn repair_reasoning(item: &JsonObject) -> (r: Option<JsonObject>)
    requires
        item_type(item@) == Some("reasoning"@),
    ensures
        r is Some <==> is_foreign_reasoning(item@),
        r is Some ==> r->0@ == analysis_message(item@),
{
    let id = match item.get("id") {
        Some(Json::Text(id)) => id,
        _ => {
            return None;
        },
    };
    let chars = chars_of(id.as_str());
    proof {
        assert(chars@.take(chars@.len() as int) =~= id@);
    }
    if !chars_are_uuid(&chars, chars.len()) || !stands_for_none(item.get("encrypted_content")) {
        return None;
    }
    let content = match item.get("content") {
        Some(content) => match content.as_array() {
            Some(content) => content,
            None => {
                return None;
            },
        },
        None => {
            return None;
        },
    };
    let summary = match item.get("summary") {
        Some(summary) => match summary.as_array() {
            Some(summary) => summary,
            None => {
                return None;
            },
        },
        None => {
            return None;
        },
    };
    proof {
        assert(trees(content@).len() == content@.len());
    }
    if content.len() == 0 || !are_text_parts(content, "reasoning_text") || !are_text_parts(
        summary,
        "summary_text",
    ) {
        return None;
    }
    let mut parts: Vec<Json> = Vec::new();
    proof {
        assert(trees(parts@) =~= Seq::<JsonTree>::empty());
    }
    push_output_parts(&mut parts, summary);
    push_output_parts(&mut parts, content);
    proof {
        assert(trees(parts@) =~= output_parts(trees(summary@) + trees(content@)));
        lemma_array_tree(parts);
    }
    let mut made = JsonObject::new();
    made.insert("type".to_owned(), Json::text("message"));
    made.insert("id".to_owned(), Json::Text(prefixed("msg_", id.as_str())));
    made.insert("role".to_owned(), Json::text("assistant"));
    made.insert("channel".to_owned(), Json::text("analysis"));
    made.insert("content".to_owned(), Json::Array(parts));
    pass_metadata(&mut made, item);
    Some(made)
}

fn make_message_id(id: &str) -> (r: String)
    ensures
        r@ == message_id(id@),
{
    match strip_prefix(id, "msg_") {
        Some(_) => id.to_owned(),
        None => match strip_prefix(id, "fco_") {
            Some(suffix) => prefixed("msg_", suffix.as_str()),
            None => prefixed("msg_", id),
        },
    }
}

fn has_text(item: &JsonObject, key: &str, wanted: &str) -> (r: bool)
    ensures
        r == (JsonTree::Object(item@).text_at(key@) == Some(wanted@)),
{
    match item.get(key) {
        Some(Json::Text(found)) => same_text(found.as_str(), wanted),
        _ => false,
    }
}

fn repair_orphan(item: &JsonObject) -> (r: Option<JsonObject>)
    ensures
        r is Some <==> is_orphan(item@),
        r is Some ==> r->0@ == user_message(item@),
{
    let known = has_text(item, "type", "function_call_output") && has_text(
        item,
        "namespace",
        "codex_app",
    ) && (has_text(item, "name", "automation_update") || has_text(
        item,
        "name",
        "send_message_to_thread",
    ));
    if !known || item.contains_key("call_id") {
        return None;
    }
    let text = match item.get("output") {
        Some(Json::Text(text)) => text,
        _ => {
            return None;
        },
    };
    let mut made = JsonObject::new();
    made.insert("type".to_owned(), Json::text("message"));
    if let Some(Json::Text(id)) = item.get("id") {
        made.insert("id".to_owned(), Json::Text(make_message_id(id.as_str())));
    }
    made.insert("role".to_owned(), Json::text("user"));
    let mut parts: Vec<Json> = Vec::new();
    let part = make_text_part("input_text", text.as_str());
    let ghost part_tree = part@;
    parts.push(part);
    proof {
        lemma_array_tree(parts);
        assert(trees(parts@) =~= seq![part_tree]);
    }
    made.insert("content".to_owned(), Json::Array(parts));
    pass_metadata(&mut made, item);
    Some(made)
}

/// What replaces an item that strict providers reject; `None` where it stays.
pub fn repair_item(item: &Json) -> (r: Option<Json>)
    ensures
        opt_tree(r) == item_repair(item@),
{
    let members = match item {
        Json::Object(members) => members,
        _ => {
            return None;
        },
    };
    proof {
        lemma_item_words();
    }
    if let Some(name) = invalid_tool_name(members) {
        let mut made = members.copy();
        made.insert("name".to_owned(), Json::Text(normalize_tool_name(name.as_str())));
        return Some(Json::Object(made));
    }
    if has_text(members, "type", "message") {
        if let Some(Json::Text(id)) = members.get("id") {
            if let Some(suffix) = strip_prefix(id.as_str(), "fco_") {
                let mut made = members.copy();
                made.insert("id".to_owned(), Json::Text(prefixed("msg_", suffix.as_str())));
                return Some(Json::Object(made));
            }
        }
        return None;
    }
    if has_text(members, "type", "reasoning") {
        return match repair_reasoning(members) {
            Some(made) => Some(Json::Object(made)),
            None => None,
        };
    }
    match repair_orphan(members) {
        Some(made) => Some(Json::Object(made)),
        None => None,
    }
}

fn repair_items(items: &Vec<Json>) -> (r: Option<Vec<Json>>)
    ensures
        r is Some <==> any_repair(trees(items@)),
        r is Some ==> trees(r->0@) == repaired_items(trees(items@)),
{
    let mut out: Vec<Json> = Vec::new();
    let mut changed = false;
    let mut i: usize = 0;
    while i < items.len()
        invariant
            i <= items@.len(),
            out@.len() == i,
            forall|j: int| 0 <= j < i ==> (#[trigger] out@[j])@ == repaired_item(items@[j]@),
            changed ==> any_repair(trees(items@)),
            !changed ==> forall|j: int|
                0 <= j < i ==> item_repair(#[trigger] trees(items@)[j]) is None,
        decreases items@.len() - i,
    {
        proof {
            assert(trees(items@)[i as int] == items@[i as int]@);
        }
        match repair_item(&items[i]) {
            Some(made) => {
                changed = true;
                out.push(made);
            },
            None => {
                out.push(items[i].copy());
            },
        }
        i += 1;
    }
    if changed {
        proof {
            assert(trees(out@) =~= repaired_items(trees(items@)));
        }
        Some(out)
    } else {
        None
    }
}

fn set_payload(row: Json, payload: Json) -> (r: Json)
    requires
        row@ is Object,
    ensures
        r@ == JsonTree::Object(row@->Object_0.insert("payload"@, payload@)),
{
    match row {
        Json::Object(members) => {
            let mut members = members;
            members.insert("payload".to_owned(), payload);
            Json::Object(members)
        },
        other => other,
    }
}

/// What replaces a row that holds an item which strict providers reject; `None` where it
/// stays.
pub fn repair_injected_row(row: Json) -> (r: Option<Json>)
    ensures
        opt_tree(r) == row_repair(row@),
{
    proof {
        lemma_item_words();
    }
    let response = match row.text_at("type") {
        Some(kind) => {
            if same_text(kind.as_str(), "response_item") {
                true
            } else if same_text(kind.as_str(), "compacted") {
                false
            } else {
                return None;
            }
        },
        None => {
            return None;
        },
    };
    if response {
        let made = match row.get("payload") {
            Some(item) => repair_item(item),
            None => None,
        };
        return match made {
            Some(made) => Some(set_payload(row, made)),
            None => None,
        };
    }
    let payload = match row.get("payload") {
        Some(Json::Object(payload)) => payload,
        _ => {
            return None;
        },
    };
    let items = match payload.get("replacement_history") {
        Some(history) => match history.as_array() {
            Some(items) => items,
            None => {
                return None;
            },
        },
        None => {
            return None;
        },
    };
    match repair_items(items) {
        Some(made) => {
            let mut payload = payload.copy();
            proof {
                lemma_array_tree(made);
            }
            payload.insert("replacement_history".to_owned(), Json::Array(made));
            Some(set_payload(row, Json::Object(payload)))
        },
        None => None,
    }
}

// ---------------------------------------------------------------------------
// Repaired rows stay when they are read back
// ---------------------------------------------------------------------------

proof fn lemma_alike_items_at(a: Members, b: Members, key: Seq<char>)
    requires
        alike(JsonTree::Object(a), JsonTree::Object(b)),
    ensures
        items_at(a, key) is Some <==> items_at(b, key) is Some,
        items_at(a, key) is Some ==> items_at(a, key)->0.len() == items_at(b, key)->0.len(),
        items_at(a, key) is Some ==> forall|i: int|
            0 <= i < items_at(a, key)->0.len() ==> alike(
                #[trigger] items_at(a, key)->0[i],
                items_at(b, key)->0[i],
            ),
{
    lemma_alike_members(JsonTree::Object(a), JsonTree::Object(b), key);
}

proof fn lemma_alike_text_parts(a: Seq<JsonTree>, b: Seq<JsonTree>, kind: Seq<char>)
    requires
        a.len() == b.len(),
        forall|i: int| 0 <= i < a.len() ==> alike(#[trigger] a[i], b[i]),
    ensures
        all_text_parts(a, kind) == all_text_parts(b, kind),
{
    assert forall|i: int| 0 <= i < a.len() implies is_text_part(#[trigger] a[i], kind)
        == is_text_part(b[i], kind) by {
        lemma_alike_members(a[i], b[i], "type"@);
        lemma_alike_members(a[i], b[i], "text"@);
    }
    if all_text_parts(a, kind) {
        assert forall|i: int| 0 <= i < b.len() implies is_text_part(#[trigger] b[i], kind) by {
            assert(is_text_part(a[i], kind));
        }
    }
    if all_text_parts(b, kind) {
        assert forall|i: int| 0 <= i < a.len() implies is_text_part(#[trigger] a[i], kind) by {
            assert(is_text_part(b[i], kind));
        }
    }
}

/// Items that are alike are repaired alike.
proof fn lemma_alike_items_are_repaired_alike(a: JsonTree, b: JsonTree)
    requires
        alike(a, b),
    ensures
        item_repair(a) is Some <==> item_repair(b) is Some,
{
    if a is Object {
        let ma = a->Object_0;
        let mb = b->Object_0;
        assert(a == JsonTree::Object(ma) && b == JsonTree::Object(mb));
        lemma_alike_members(a, b, "type"@);
        lemma_alike_members(a, b, "name"@);
        lemma_alike_members(a, b, "id"@);
        lemma_alike_members(a, b, "namespace"@);
        lemma_alike_members(a, b, "output"@);
        lemma_alike_members(a, b, "call_id"@);
        lemma_alike_members(a, b, "encrypted_content"@);
        lemma_alike_items_at(ma, mb, "content"@);
        lemma_alike_items_at(ma, mb, "summary"@);
        if items_at(ma, "content"@) is Some {
            lemma_alike_text_parts(
                items_at(ma, "content"@)->0,
                items_at(mb, "content"@)->0,
                "reasoning_text"@,
            );
        }
        if items_at(ma, "summary"@) is Some {
            lemma_alike_text_parts(
                items_at(ma, "summary"@)->0,
                items_at(mb, "summary"@)->0,
                "summary_text"@,
            );
        }
        assert(is_placeholder(a.get("encrypted_content"@)) == is_placeholder(
            b.get("encrypted_content"@),
        ));
        assert(is_foreign_reasoning(ma) == is_foreign_reasoning(mb));
        assert(is_orphan(ma) == is_orphan(mb));
    }
}

/// Rows that are alike are repaired alike.
proof fn lemma_alike_rows_are_repaired_alike(a: JsonTree, b: JsonTree)
    requires
        alike(a, b),
    ensures
        row_repair(a) is Some <==> row_repair(b) is Some,
{
    lemma_alike_members(a, b, "type"@);
    lemma_alike_members(a, b, "payload"@);
    if a.get("payload"@) is Some {
        let pa = a.get("payload"@)->0;
        let pb = b.get("payload"@)->0;
        lemma_alike_items_are_repaired_alike(pa, pb);
        lemma_alike_members(pa, pb, "replacement_history"@);
        if compacted_items(a) is Some {
            let xs = compacted_items(a)->0;
            let ys = compacted_items(b)->0;
            assert forall|i: int| 0 <= i < xs.len() implies (item_repair(#[trigger] xs[i]) is Some
                <==> item_repair(ys[i]) is Some) by {
                let list = pa.get("replacement_history"@)->0;
                assert(alike(list->Array_0[i], ys[i]));
                lemma_alike_items_are_repaired_alike(xs[i], ys[i]);
            }
            if any_repair(xs) {
                let i = choose|i: int| 0 <= i < xs.len() && item_repair(#[trigger] xs[i]) is Some;
                assert(item_repair(ys[i]) is Some);
            }
            if any_repair(ys) {
                let i = choose|i: int| 0 <= i < ys.len() && item_repair(#[trigger] ys[i]) is Some;
                assert(item_repair(xs[i]) is Some);
            }
        }
    }
}

/// What replaces a line that holds an item which strict providers reject; `None` where it
/// stays. A repaired line stays.
pub fn repair_injected_line(line: &str) -> (r: Option<String>)
    ensures
        opt_view(r) == injected_line_repair(line@),
        r is Some ==> r->0@.len() > 0 && forall|i: int|
            0 <= i < r->0@.len() ==> #[trigger] r->0@[i] >= ' ',
        r is Some ==> injected_line_repair(r->0@) is None,
{
    if !contains(line, "\"response_item\"") && !contains(line, "\"compacted\"") {
        return None;
    }
    let row = match parse(line) {
        Some(row) => row,
        None => {
            return None;
        },
    };
    let ghost old_row = row@;
    match repair_injected_row(row) {
        Some(made) => {
            let text = made.render();
            proof {
                a_row_repair_is_final(old_row);
                if json_of_text(text@) is Some {
                    lemma_alike_rows_are_repaired_alike(
                        row_repair(old_row)->0,
                        json_of_text(text@)->0,
                    );
                }
            }
            Some(text)
        },
        None => None,
    }
}

// ---------------------------------------------------------------------------
// Repairing a whole rollout
// ---------------------------------------------------------------------------

/// The version of the repair rules: a rollout that was repaired under an older one is
/// scanned again.
pub const REPAIR_VERSION: u32 = 3;

/// The most bytes that a record after the first may take.
pub const MAX_RECORD_BYTES: usize = 134217728;

/// Why a rollout is not repaired.
#[derive(Debug, Clone, Copy, PartialEq, Eq, Structural)]
pub enum RepairError {
    /// The thread id cannot name a lock file.
    InvalidIdentity,
    /// A record is too long to repair.
    OversizedRecord,
    /// Something is to be repaired, but the rollout names no thread.
    MissingIdentity,
    /// Something is to be repaired, but the history builds on another one.
    SegmentedHistory,
    /// The rollout was written to while it was repaired.
    RolloutChanged,
    /// A checkpoint lies inside a record that is to be replaced.
    InsideChangedRecord,
    /// A checkpoint would leave the range of offsets.
    OffsetOutOfRange,
    /// A projection stands beside no state database.
    NoStateDatabase,
    /// A projection belongs to no known rollout.
    NoCanonicalRollout,
}

impl RepairError {
    /// The error in words.
    pub open spec fn words(self) -> Seq<char> {
        match self {
            RepairError::InvalidIdentity => "invalid thread identity; refusing rollout write"@,
            RepairError::OversizedRecord => "oversized rollout record; repair deferred"@,
            RepairError::MissingIdentity => "missing session identity; refusing rollout write"@,
            RepairError::SegmentedHistory => "segmented history needs lineage-aware projection rebuild; repair deferred"@,
            RepairError::RolloutChanged => "rollout changed during repair; refusing overwrite"@,
            RepairError::InsideChangedRecord => "projection checkpoint lies inside a changed record; repair deferred"@,
            RepairError::OffsetOutOfRange => "out of range integral type conversion attempted"@,
            RepairError::NoStateDatabase => "projection has no state database to identify its rollout; repair deferred"@,
            RepairError::NoCanonicalRollout => "projection has no canonical rollout; repair deferred"@,
        }
    }

    /// The error in words.
    pub fn message(&self) -> (r: String)
        ensures
            r@ == self.words(),
    {
        match self {
            RepairError::InvalidIdentity => "invalid thread identity; refusing rollout write".to_owned(),
            RepairError::OversizedRecord => "oversized rollout record; repair deferred".to_owned(),
            RepairError::MissingIdentity => "missing session identity; refusing rollout write".to_owned(),
            RepairError::SegmentedHistory => "segmented history needs lineage-aware projection rebuild; repair deferred".to_owned(),
            RepairError::RolloutChanged => "rollout changed during repair; refusing overwrite".to_owned(),
            RepairError::InsideChangedRecord => "projection checkpoint lies inside a changed record; repair deferred".to_owned(),
            RepairError::OffsetOutOfRange => "out of range integral type conversion attempted".to_owned(),
            RepairError::NoStateDatabase => "projection has no state database to identify its rollout; repair deferred".to_owned(),
            RepairError::NoCanonicalRollout => "projection has no canonical rollout; repair deferred".to_owned(),
        }
    }
}

/// The line end of a record.
pub open spec fn line_end(record: Seq<char>) -> Seq<char> {
    if record.len() > 0 && record.last() == '\n' {
        if record.len() > 1 && record[record.len() - 2] == '\r' {
            seq!['\r', '\n']
        } else {
            seq!['\n']
        }
    } else {
        Seq::empty()
    }
}

/// What replaces a record that holds an item which strict providers reject: its repaired
/// line, with the line end that it had.
pub open spec fn record_repair(record: Seq<char>) -> Option<Seq<char>> {
    match injected_line_repair(trim_back(record, CharClass::LineEnd)) {
        Some(line) => Some(line + line_end(record)),
        None => None,
    }
}

/// A record after a repair.
pub open spec fn repaired_record(record: Seq<char>) -> Seq<char> {
    match record_repair(record) {
        Some(made) => made,
        None => record,
    }
}

/// The records after a repair, one for one.
pub open spec fn repaired_records(recs: Seq<Seq<char>>) -> Seq<Seq<char>> {
    recs.map_values(|record: Seq<char>| repaired_record(record))
}

/// How many records a repair replaces.
pub open spec fn repair_count(recs: Seq<Seq<char>>) -> nat {
    recs.filter(|record: Seq<char>| record_repair(record) is Some).len()
}

/// Whether a record after the first is too long.
pub open spec fn has_oversized(recs: Seq<Seq<char>>) -> bool {
    exists|i: int| 0 < i < recs.len() && utf8_len(#[trigger] recs[i]) > MAX_RECORD_BYTES
}

/// The replaced records by their byte offsets: where each began and ended, and how many bytes
/// stand there now.
pub open spec fn changes_of(recs: Seq<Seq<char>>) -> Seq<(int, int, int)>
    decreases recs.len(),
{
    if recs.len() == 0 {
        Seq::empty()
    } else {
        let before = changes_of(recs.drop_last());
        let start = utf8_len(concat(recs.drop_last())) as int;
        match record_repair(recs.last()) {
            Some(made) => before.push(
                (start, start + utf8_len(recs.last()), utf8_len(made) as int),
            ),
            None => before,
        }
    }
}

/// Changes as mathematical integers.
pub open spec fn spans(changes: Seq<(u64, u64, u64)>) -> Seq<(int, int, int)> {
    changes.map_values(|c: (u64, u64, u64)| (c.0 as int, c.1 as int, c.2 as int))
}

/// What a repair makes of the content of a rollout.
#[derive(Debug, PartialEq, Eq)]
pub struct ContentRepair {
    pub content: String,
    pub items_repaired: usize,
    pub changes: Vec<(u64, u64, u64)>,
}

/// What is known of a record after a repair: it is one, it ends as the record did, and it
/// needs no further repair.
#[verifier::opaque]
spec fn is_settled(record: Seq<char>) -> bool {
    &&& is_record(repaired_record(record))
    &&& record.last() == '\n' ==> repaired_record(record).last() == '\n'
    &&& record_repair(repaired_record(record)) is None
}

/// What replaces a record.
fn repair_record(record: &str) -> (r: Option<String>)
    requires
        is_record(record@),
    ensures
        opt_view(r) == record_repair(record@),
        is_settled(record@),
{
    proof {
        reveal(is_settled);
    }
    let line = trim_end(record, CharClass::LineEnd);
    match repair_injected_line(line.as_str()) {
        Some(fixed) => {
            let mut out = fixed.clone();
            let ghost body = out@;
            if ends_with(record, "\r\n") {
                out.push_str("\r\n");
            } else if ends_with(record, "\n") {
                out.push_str("\n");
            }
            proof {
                reveal_strlit("\r\n");
                reveal_strlit("\n");
                let n = record@.len();
                assert("\n"@ =~= seq!['\n']);
                assert("\r\n"@ =~= seq!['\r', '\n']);
                if n >= 2 {
                    assert(record@.skip(n - 2) =~= seq![record@[n - 2], record@[n - 1]]);
                    if record@.skip(n - 2) == seq!['\r', '\n'] {
                        assert(record@.skip(n - 2)[0] == '\r');
                        assert(record@.skip(n - 2)[1] == '\n');
                    }
                }
                assert(record@.skip(n - 1) =~= seq![record@[n - 1]]);
                if record@.skip(n - 1) == seq!['\n'] {
                    assert(record@.skip(n - 1)[0] == '\n');
                }
                assert(out@ =~= body + line_end(record@));
                let inner = out@.drop_last();
                assert forall|i: int| 0 <= i < inner.len() implies inner[i] != '\n' by {
                    if i < body.len() {
                        assert(body[i] >= ' ');
                    }
                }
                lemma_repaired_line_is_trimmed(body, line_end(record@));
            }
            Some(out)
        },
        None => None,
    }
}

proof fn lemma_repaired_line_is_trimmed(line: Seq<char>, end: Seq<char>)
    requires
        line.len() > 0,
        forall|i: int| 0 <= i < line.len() ==> #[trigger] line[i] >= ' ',
        end == Seq::<char>::empty() || end == seq!['\n'] || end == seq!['\r', '\n'],
    ensures
        trim_back(line + end, CharClass::LineEnd) == line,
{
    reveal_with_fuel(trim_back, 3);
    assert(line[line.len() - 1] >= ' ');
    if end.len() == 0 {
        assert(line + end =~= line);
    } else {
        let once = (line + end).drop_last();
        assert((line + end).last() == '\n');
        if end.len() == 1 {
            assert(once =~= line);
        } else {
            assert(once.last() == '\r');
            assert(once.drop_last() =~= line);
        }
    }
}

proof fn lemma_change_step(recs: Seq<Seq<char>>, i: int)
    requires
        0 <= i < recs.len(),
    ensures
        concat(recs.take(i + 1)) == concat(recs.take(i)) + recs[i],
        utf8_len(concat(recs.take(i + 1))) == utf8_len(concat(recs.take(i))) + utf8_len(recs[i]),
        utf8_len(concat(recs.take(i + 1))) <= utf8_len(concat(recs)),
        changes_of(recs.take(i + 1)) == (match record_repair(recs[i]) {
            Some(made) => changes_of(recs.take(i)).push(
                (
                    utf8_len(concat(recs.take(i))) as int,
                    utf8_len(concat(recs.take(i + 1))) as int,
                    utf8_len(made) as int,
                ),
            ),
            None => changes_of(recs.take(i)),
        }),
{
    assert(recs.take(i + 1).drop_last() =~= recs.take(i));
    assert(recs.take(i + 1).last() == recs[i]);
    lemma_utf8_len_add(concat(recs.take(i)), recs[i]);
    assert(recs =~= recs.take(i + 1) + recs.skip(i + 1));
    lemma_concat_add(recs.take(i + 1), recs.skip(i + 1));
    lemma_utf8_len_add(concat(recs.take(i + 1)), concat(recs.skip(i + 1)));
}

/// Repairs the injected items of a rollout; every other record stands as it was, byte for
/// byte. An error where a record after the first is too long.
///
/// A second repair finds nothing to do.
pub fn repair_injected_content(content: &str) -> (r: Result<ContentRepair, RepairError>)
    ensures
        r is Err <==> has_oversized(records_of(content@)),
        r is Err ==> r->Err_0 == RepairError::OversizedRecord,
        r is Ok ==> r->Ok_0.items_repaired == repair_count(records_of(content@)),
        r is Ok ==> r->Ok_0.content@ == concat(repaired_records(records_of(content@))),
        r is Ok ==> records_of(r->Ok_0.content@) == repaired_records(records_of(content@)),
        r is Ok ==> spans(r->Ok_0.changes@) == changes_of(records_of(content@)),
        r is Ok ==> r->Ok_0.changes@.len() == r->Ok_0.items_repaired,
        r is Ok ==> repair_count(records_of(r->Ok_0.content@)) == 0,
{
    let rows = records(content);
    let total: usize = byte_len(content);
    let ghost recs = records_of(content@);
    let ghost pred = |record: Seq<char>| record_repair(record) is Some;
    let mut out = String::new();
    let mut items: usize = 0;
    let mut changes: Vec<(u64, u64, u64)> = Vec::new();
    let mut offset: usize = 0;
    let mut i: usize = 0;
    proof {
        lemma_no_items(recs);
        lemma_records(content@);
        records_concatenate_to_the_text(content@);
        assert(recs.len() == views(rows@).len() == rows@.len());
        assert(repaired_records(recs).take(0) =~= Seq::<Seq<char>>::empty());
        assert(spans(changes@) =~= changes_of(recs.take(0)));
    }
    while i < rows.len()
        invariant
            views(rows@) == recs,
            recs == records_of(content@),
            recs.len() == rows@.len(),
            total == utf8_len(content@),
            concat(recs) == content@,
            pred == (|record: Seq<char>| record_repair(record) is Some),
            forall|j: int| 0 <= j < recs.len() ==> is_record(#[trigger] recs[j]),
            i <= rows@.len(),
            offset == utf8_len(concat(recs.take(i as int))),
            items <= i,
            items == recs.take(i as int).filter(pred).len(),
            changes@.len() == items,
            spans(changes@) == changes_of(recs.take(i as int)),
            out@ == concat(repaired_records(recs).take(i as int)),
            forall|j: int| 0 < j < i ==> utf8_len(#[trigger] recs[j]) <= MAX_RECORD_BYTES,
            forall|j: int| 0 <= j < i ==> is_settled(#[trigger] recs[j]),
        decreases rows@.len() - i,
    {
        proof {
            assert(views(rows@)[i as int] == rows@[i as int]@);
            lemma_filter_step(recs, i as int, pred);
            lemma_change_step(recs, i as int);
            let fixed = repaired_records(recs);
            assert(fixed.take(i + 1).drop_last() =~= fixed.take(i as int));
            assert(fixed.take(i + 1).last() == repaired_record(recs[i as int]));
        }
        let length: usize = byte_len(rows[i].as_str());
        if i > 0 && length > MAX_RECORD_BYTES {
            return Err(RepairError::OversizedRecord);
        }
        match repair_record(rows[i].as_str()) {
            Some(made) => {
                let ghost before = changes@;
                changes.push(
                    (offset as u64, (offset + length) as u64, byte_len(made.as_str()) as u64),
                );
                proof {
                    assert(spans(changes@) =~= spans(before).push(
                        (offset as int, offset + length, utf8_len(made@) as int),
                    ));
                }
                items += 1;
                out.push_str(made.as_str());
            },
            None => {
                out.push_str(rows[i].as_str());
            },
        }
        offset += length;
        i += 1;
    }
    proof {
        let fixed = repaired_records(recs);
        assert(fixed.take(fixed.len() as int) =~= fixed);
        assert forall|j: int| 0 <= j < fixed.len() implies is_record(#[trigger] fixed[j]) by {
            assert(is_settled(recs[j]));
            reveal(is_settled);
        }
        assert forall|j: int| 0 <= j < fixed.len() - 1 implies (#[trigger] fixed[j]).last()
            == '\n' by {
            assert(is_settled(recs[j]));
            assert(recs[j].last() == '\n');
            reveal(is_settled);
        }
        records_read_back(fixed);
        assert forall|j: int| 0 <= j < fixed.len() implies !pred(#[trigger] fixed[j]) by {
            assert(is_settled(recs[j]));
            reveal(is_settled);
        }
        fixed.lemma_all_neg_filter_empty(pred);
    }
    Ok(ContentRepair { content: out, items_repaired: items, changes })
}

/// A repair keeps the number of records, and each record that it does not replace.
pub proof fn a_repair_keeps_other_records(recs: Seq<Seq<char>>, i: int)
    requires
        0 <= i < recs.len(),
    ensures
        repaired_records(recs).len() == recs.len(),
        record_repair(recs[i]) is None ==> repaired_records(recs)[i] == recs[i],
{
}

// ---------------------------------------------------------------------------
// Checkpoints
// ---------------------------------------------------------------------------

/// Whether an offset lies strictly inside a changed record.
pub open spec fn inside_change(offset: int, changes: Seq<(int, int, int)>) -> bool {
    exists|i: int| 0 <= i < changes.len() && (#[trigger] changes[i]).0 < offset < changes[i].1
}

/// By how much the changes before an offset move it.
pub open spec fn shift_at(offset: int, changes: Seq<(int, int, int)>) -> int
    decreases changes.len(),
{
    if changes.len() == 0 {
        0
    } else {
        let c = changes.last();
        shift_at(offset, changes.drop_last()) + if c.1 <= offset {
            c.2 - (c.1 - c.0)
        } else {
            0
        }
    }
}

/// Whether changes follow one another: none begins before an earlier one ends.
pub open spec fn are_apart(changes: Seq<(int, int, int)>) -> bool {
    &&& forall|i: int|
        0 <= i < changes.len() ==> (#[trigger] changes[i]).0 <= changes[i].1 && changes[i].2 >= 0
    &&& forall|i: int, j: int|
        0 <= i < j < changes.len() ==> (#[trigger] changes[i]).1 <= (#[trigger] changes[j]).0
}

proof fn lemma_shift_behind_all(a: int, b: int, changes: Seq<(int, int, int)>)
    requires
        forall|i: int|
            0 <= i < changes.len() ==> (#[trigger] changes[i]).1 <= a && changes[i].1 <= b,
    ensures
        shift_at(a, changes) == shift_at(b, changes),
    decreases changes.len(),
{
    if changes.len() > 0 {
        assert(changes.last() == changes[changes.len() - 1]);
        assert forall|i: int| 0 <= i < changes.drop_last().len() implies (
        #[trigger] changes.drop_last()[i]).1 <= a && changes.drop_last()[i].1 <= b by {
            assert(changes.drop_last()[i] == changes[i]);
        }
        lemma_shift_behind_all(a, b, changes.drop_last());
    }
}

/// Checkpoints keep their order: of two offsets that can be moved, the one that was not behind
/// the other is not behind it once they are moved. Where nothing changes, none moves.
pub proof fn checkpoints_keep_their_order(a: int, b: int, changes: Seq<(int, int, int)>)
    requires
        are_apart(changes),
        a <= b,
        !inside_change(a, changes),
        !inside_change(b, changes),
    ensures
        a + shift_at(a, changes) <= b + shift_at(b, changes),
        changes.len() == 0 ==> shift_at(a, changes) == 0,
    decreases changes.len(),
{
    if changes.len() > 0 {
        let before = changes.drop_last();
        let c = changes.last();
        assert(c == changes[changes.len() - 1]);
        assert forall|i: int| 0 <= i < before.len() implies (#[trigger] before[i]) == changes[i]
            && before[i].1 <= c.0 && before[i].0 <= before[i].1 && before[i].2 >= 0 by {
            assert(changes[i].1 <= changes[changes.len() - 1].0);
        }
        assert(are_apart(before));
        assert(!inside_change(a, before));
        assert(!inside_change(b, before));
        if a < c.1 && c.1 <= b {
            assert(!(c.0 < a < c.1));
            assert(!inside_change(c.0, before));
            checkpoints_keep_their_order(a, c.0, before);
            lemma_shift_behind_all(c.0, b, before);
        } else {
            checkpoints_keep_their_order(a, b, before);
        }
    }
}

/// Moves a byte offset of the old content to the new content.
pub fn translated_offset(offset: u64, changes: &[(u64, u64, u64)]) -> (r: Result<u64, RepairError>)
    requires
        changes@.len() < 0x4000_0000_0000_0000,
        forall|i: int|
            0 <= i < changes@.len() && (#[trigger] changes@[i]).1 <= offset ==> changes@[i].0
                <= changes@[i].1,
    ensures
        ({
            let moved = offset + shift_at(offset as int, spans(changes@));
            if inside_change(offset as int, spans(changes@)) {
                r == Err::<u64, RepairError>(RepairError::InsideChangedRecord)
            } else if 0 <= moved <= u64::MAX {
                r == Ok::<u64, RepairError>(moved as u64)
            } else {
                r == Err::<u64, RepairError>(RepairError::OffsetOutOfRange)
            }
        }),
{
    let ghost all = spans(changes@);
    let mut moved: i128 = offset as i128;
    let mut i: usize = 0;
    while i < changes.len()
        invariant
            i <= changes@.len(),
            changes@.len() < 0x4000_0000_0000_0000,
            all == spans(changes@),
            forall|j: int|
                0 <= j < changes@.len() && (#[trigger] changes@[j]).1 <= offset ==> changes@[j].0
                    <= changes@[j].1,
            forall|j: int|
                0 <= j < i ==> !((#[trigger] all[j]).0 < offset && offset < all[j].1),
            moved == offset + shift_at(offset as int, all.take(i as int)),
            -0x1_0000_0000_0000_0000 * i <= moved - offset <= 0x1_0000_0000_0000_0000 * i,
        decreases changes@.len() - i,
    {
        let (start, end, new_len) = changes[i];
        proof {
            assert(all[i as int] == (start as int, end as int, new_len as int));
            assert(all.take(i + 1).drop_last() =~= all.take(i as int));
            assert(all.take(i + 1).last() == all[i as int]);
        }
        if start < offset && offset < end {
            proof {
                assert(all[i as int].0 < offset < all[i as int].1);
            }
            return Err(RepairError::InsideChangedRecord);
        }
        if end <= offset {
            moved = moved + (new_len as i128 - (end - start) as i128);
        }
        i += 1;
    }
    proof {
        assert(all.take(all.len() as int) =~= all);
    }
    if 0 <= moved && moved <= 0xffff_ffff_ffff_ffff {
        Ok(moved as u64)
    } else {
        Err(RepairError::OffsetOutOfRange)
    }
}

/// Where the `n`-th record of a list begins, in bytes.
pub open spec fn record_start(recs: Seq<Seq<char>>, n: int) -> int {
    utf8_len(concat(recs.take(n))) as int
}

proof fn lemma_past_all_changes(recs: Seq<Seq<char>>, offset: int)
    requires
        utf8_len(concat(recs)) <= offset,
    ensures
        !inside_change(offset, changes_of(recs)),
        utf8_len(concat(recs)) + shift_at(offset, changes_of(recs)) == utf8_len(
            concat(repaired_records(recs)),
        ),
    decreases recs.len(),
{
    if recs.len() == 0 {
        assert(repaired_records(recs) =~= Seq::<Seq<char>>::empty());
    } else {
        let before = recs.drop_last();
        assert(recs.take(recs.len() as int) =~= recs);
        assert(recs.take(recs.len() - 1) =~= before);
        lemma_change_step(recs, recs.len() - 1);
        lemma_past_all_changes(before, offset);
        assert(repaired_records(recs).drop_last() =~= repaired_records(before));
        lemma_utf8_len_add(concat(repaired_records(before)), repaired_record(recs.last()));
        if record_repair(recs.last()) is Some {
            let changes = changes_of(recs);
            assert(changes.drop_last() =~= changes_of(before));
            assert forall|i: int| 0 <= i < changes.len() implies !((#[trigger] changes[i]).0
                < offset < changes[i].1) by {
                if i < changes.len() - 1 {
                    assert(changes[i] == changes_of(before)[i]);
                }
            }
        }
    }
}

/// An offset inside a record that stands moves with the record; one inside a record that is
/// replaced is refused.
pub proof fn checkpoints_follow_their_record(recs: Seq<Seq<char>>, n: int, d: int)
    requires
        0 <= n < recs.len(),
        0 <= d < utf8_len(recs[n]),
    ensures
        inside_change(record_start(recs, n) + d, changes_of(recs)) <==> d > 0 && record_repair(
            recs[n],
        ) is Some,
        d == 0 || record_repair(recs[n]) is None ==> record_start(recs, n) + d + shift_at(
            record_start(recs, n) + d,
            changes_of(recs),
        ) == record_start(repaired_records(recs), n) + d,
    decreases recs.len(),
{
    let before = recs.drop_last();
    let offset = record_start(recs, n) + d;
    let changes = changes_of(recs);
    lemma_change_step(recs, recs.len() - 1);
    assert(recs.take(recs.len() as int) =~= recs);
    assert(recs.take(recs.len() - 1) =~= before);
    assert(repaired_records(recs).take(n) =~= repaired_records(recs.take(n)));
    if n < recs.len() - 1 {
        assert(before.take(n) =~= recs.take(n));
        checkpoints_follow_their_record(before, n, d);
        assert(repaired_records(before).take(n) =~= repaired_records(recs.take(n)));
        lemma_change_step(before, n);
        if record_repair(recs.last()) is Some {
            assert(changes.drop_last() =~= changes_of(before));
            if inside_change(offset, changes_of(before)) {
                let i = choose|i: int|
                    0 <= i < changes_of(before).len() && (#[trigger] changes_of(before)[i]).0
                        < offset < changes_of(before)[i].1;
                assert(changes[i] == changes_of(before)[i]);
            }
            if inside_change(offset, changes) {
                let i = choose|i: int|
                    0 <= i < changes.len() && (#[trigger] changes[i]).0 < offset < changes[i].1;
                if i < changes.len() - 1 {
                    assert(changes[i] == changes_of(before)[i]);
                }
            }
        }
    } else {
        assert(recs.take(n) =~= before);
        lemma_past_all_changes(before, offset);
        if record_repair(recs.last()) is Some {
            assert(changes.drop_last() =~= changes_of(before));
            let last = changes.len() - 1;
            if d > 0 {
                assert(changes[last].0 < offset < changes[last].1);
            }
            if inside_change(offset, changes) {
                let i = choose|i: int|
                    0 <= i < changes.len() && (#[trigger] changes[i]).0 < offset < changes[i].1;
                if i < last {
                    assert(changes[i] == changes_of(before)[i]);
                }
            }
        }
    }
}

/// A checkpoint between two records stands between the same two records after a repair.
pub proof fn checkpoints_at_boundaries_are_kept(recs: Seq<Seq<char>>, n: int)
    requires
        0 <= n <= recs.len(),
        forall|i: int| 0 <= i < recs.len() ==> (#[trigger] recs[i]).len() > 0,
    ensures
        !inside_change(record_start(recs, n), changes_of(recs)),
        record_start(recs, n) + shift_at(record_start(recs, n), changes_of(recs)) == record_start(
            repaired_records(recs),
            n,
        ),
{
    if n < recs.len() {
        lemma_utf8_len_positive(recs[n]);
        checkpoints_follow_their_record(recs, n, 0);
    } else {
        assert(recs.take(n) =~= recs);
        assert(repaired_records(recs).take(n) =~= repaired_records(recs));
        lemma_past_all_changes(recs, record_start(recs, n));
    }
}

// ---------------------------------------------------------------------------
// Who a rollout belongs to
// ---------------------------------------------------------------------------

/// The first row of a rollout, null where it is none.
pub open spec fn first_row(record: Seq<char>) -> JsonTree {
    match json_of_text(record) {
        Some(row) => row,
        None => JsonTree::Null,
    }
}

/// The thread that the first record of a rollout names.
pub open spec fn thread_of(record: Seq<char>) -> Option<Seq<char>> {
    match first_row(record).get("payload"@) {
        Some(payload) => payload.text_at("id"@),
        None => None,
    }
}

/// Whether the first record of a rollout says that its history builds on another one.
pub open spec fn builds_on_other(record: Seq<char>) -> bool {
    match first_row(record).get_in("payload"@, "history_base"@) {
        Some(base) => base != JsonTree::Null,
        None => false,
    }
}

/// The first record of a content, empty where there is none.
pub open spec fn first_record(content: Seq<char>) -> Seq<char> {
    if records_of(content).len() > 0 {
        records_of(content)[0]
    } else {
        Seq::empty()
    }
}

/// Whether a thread id can name a lock file: letters, digits and dashes of ASCII only.
pub open spec fn valid_thread_id(id: Seq<char>) -> bool {
    id.len() > 0 && forall|i: int| 0 <= i < id.len() ==> thread_char(#[trigger] id[i])
}

/// Whether a character may stand in a thread id.
pub open spec fn thread_char(c: char) -> bool {
    ('a' <= c && c <= 'z') || ('A' <= c && c <= 'Z') || ('0' <= c && c <= '9') || c == '-'
}

/// The identity that the first record of a rollout gives.
#[derive(Debug, PartialEq, Eq)]
pub struct SessionIdentity {
    pub id: Option<String>,
    pub segmented: bool,
}

/// Reads the identity of a rollout from its first record.
pub fn session_identity(record: &str) -> (r: SessionIdentity)
    ensures
        opt_view(r.id) == thread_of(record@),
        r.segmented == builds_on_other(record@),
{
    let row = match parse(record) {
        Some(row) => row,
        None => Json::Null,
    };
    let id = match row.get("payload") {
        Some(payload) => match payload.text_at("id") {
            Some(id) => Some(id.clone()),
            None => None,
        },
        None => None,
    };
    let segmented = match row.get_in("payload", "history_base") {
        Some(Json::Null) => false,
        Some(_) => true,
        None => false,
    };
    SessionIdentity { id, segmented }
}

/// Whether a thread id can name a lock file.
pub fn is_valid_thread_id(id: &str) -> (r: bool)
    ensures
        r == valid_thread_id(id@),
{
    let chars = chars_of(id);
    if chars.len() == 0 {
        return false;
    }
    let mut i: usize = 0;
    while i < chars.len()
        invariant
            chars@ == id@,
            i <= chars@.len(),
            forall|j: int| 0 <= j < i ==> thread_char(#[trigger] chars@[j]),
        decreases chars@.len() - i,
    {
        let c = chars[i];
        if !(('a' <= c && c <= 'z') || ('A' <= c && c <= 'Z') || ('0' <= c && c <= '9') || c
            == '-') {
            return false;
        }
        i += 1;
    }
    true
}

/// The lock file that guards the writes to a rollout: none in a dry run, nor where the
/// rollout names no thread; an error where its thread cannot name a file.
pub fn writer_guard(identity: &SessionIdentity, apply: bool) -> (r: Result<
    Option<String>,
    RepairError,
>)
    ensures
        match identity.id {
            Some(id) => if !apply {
                r == Ok::<Option<String>, RepairError>(None)
            } else if valid_thread_id(id@) {
                r is Ok && opt_view(r->Ok_0) == Some(id@ + ".lock"@)
            } else {
                r == Err::<Option<String>, RepairError>(RepairError::InvalidIdentity)
            },
            None => r == Ok::<Option<String>, RepairError>(None),
        },
{
    if !apply {
        return Ok(None);
    }
    match &identity.id {
        Some(id) => {
            if is_valid_thread_id(id.as_str()) {
                let mut name = id.clone();
                name.push_str(".lock");
                Ok(Some(name))
            } else {
                Err(RepairError::InvalidIdentity)
            }
        },
        None => Ok(None),
    }
}

/// Why a content is not repaired, where it is not.
pub open spec fn refusal(content: Seq<char>, apply: bool) -> Option<RepairError> {
    let recs = records_of(content);
    let id = thread_of(first_record(content));
    if apply && id is Some && !valid_thread_id(id->0) {
        Some(RepairError::InvalidIdentity)
    } else if has_oversized(recs) {
        Some(RepairError::OversizedRecord)
    } else if apply && repair_count(recs) > 0 && id is None {
        Some(RepairError::MissingIdentity)
    } else if apply && repair_count(recs) > 0 && builds_on_other(first_record(content)) {
        Some(RepairError::SegmentedHistory)
    } else {
        None
    }
}

/// Repairs the injected items of a rollout. Nothing is written for a rollout that cannot be
/// guarded, is not known to be whole, or holds a record that is too long: an error says why.
///
/// A second repair finds nothing to do.
pub fn repair_injected_file(content: &str, apply: bool) -> (r: Result<ContentRepair, RepairError>)
    ensures
        match refusal(content@, apply) {
            Some(error) => r == Err::<ContentRepair, RepairError>(error),
            None => {
                &&& r is Ok
                &&& r->Ok_0.items_repaired == repair_count(records_of(content@))
                &&& r->Ok_0.content@ == concat(repaired_records(records_of(content@)))
                &&& records_of(r->Ok_0.content@) == repaired_records(records_of(content@))
                &&& repair_count(records_of(r->Ok_0.content@)) == 0
                &&& spans(r->Ok_0.changes@) == changes_of(records_of(content@))
            },
        },
{
    let rows = records(content);
    proof {
        assert(rows@.len() == records_of(content@).len());
        if rows@.len() > 0 {
            assert(records_of(content@)[0] == rows@[0]@);
        }
    }
    let identity = if rows.len() > 0 {
        session_identity(rows[0].as_str())
    } else {
        let none = String::new();
        proof {
            assert(none@ =~= Seq::<char>::empty());
        }
        session_identity(none.as_str())
    };
    if let Err(error) = writer_guard(&identity, apply) {
        return Err(error);
    }
    let repair = match repair_injected_content(content) {
        Ok(repair) => repair,
        Err(error) => {
            return Err(error);
        },
    };
    if apply && repair.items_repaired > 0 {
        if identity.id.is_none() {
            return Err(RepairError::MissingIdentity);
        }
        if identity.segmented {
            return Err(RepairError::SegmentedHistory);
        }
    }
    Ok(repair)
}

/// A dry run tells what an application would do, where that is done at all.
pub proof fn a_dry_run_foretells(content: Seq<char>)
    ensures
        refusal(content, true) is None ==> refusal(content, false) is None,
{
}

// ---------------------------------------------------------------------------
// Publishing a repair
// ---------------------------------------------------------------------------

/// Whether the rollout that was repaired is still the one that was read: an error where its
/// length or its time differs.
pub fn unchanged_during_repair(
    old_length: u64,
    new_length: u64,
    old_modified: u128,
    new_modified: u128,
) -> (r: Result<(), RepairError>)
    ensures
        r == (if old_length == new_length && old_modified == new_modified {
            Ok::<(), RepairError>(())
        } else {
            Err::<(), RepairError>(RepairError::RolloutChanged)
        }),
{
    if old_length != new_length || old_modified != new_modified {
        Err(RepairError::RolloutChanged)
    } else {
        Ok(())
    }
}

/// The checkpoint to look after, once it is known whether the state database is there: none
/// where the projection has none; an error where nothing tells which rollout it belongs to.
pub fn checkpoint_to_move(checkpoint: Option<u64>, has_state: bool) -> (r: Result<
    Option<u64>,
    RepairError,
>)
    ensures
        r == (if checkpoint is Some && !has_state {
            Err::<Option<u64>, RepairError>(RepairError::NoStateDatabase)
        } else {
            Ok::<Option<u64>, RepairError>(checkpoint)
        }),
{
    match checkpoint {
        Some(offset) => {
            if has_state {
                Ok(Some(offset))
            } else {
                Err(RepairError::NoStateDatabase)
            }
        },
        None => Ok(None),
    }
}

/// The path of the rollout that a projection belongs to, below the home directory where it
/// is not absolute; an error where none is known.
pub fn canonical_rollout(found: &Option<String>, home: &str) -> (r: Result<String, RepairError>)
    ensures
        match found {
            Some(path) => r is Ok && r->Ok_0@ == path_below(home@, path@),
            None => r == Err::<String, RepairError>(RepairError::NoCanonicalRollout),
        },
{
    match found {
        Some(path) => Ok(join_path(home, path.as_str())),
        None => Err(RepairError::NoCanonicalRollout),
    }
}

/// The new checkpoint of a projection: none where it belongs to another rollout.
pub fn moved_checkpoint(offset: u64, owns_it: bool, changes: &[(u64, u64, u64)]) -> (r: Result<
    Option<u64>,
    RepairError,
>)
    requires
        changes@.len() < 0x4000_0000_0000_0000,
        forall|i: int|
            0 <= i < changes@.len() && (#[trigger] changes@[i]).1 <= offset ==> changes@[i].0
                <= changes@[i].1,
    ensures
        ({
            let moved = offset + shift_at(offset as int, spans(changes@));
            if !owns_it {
                r == Ok::<Option<u64>, RepairError>(None)
            } else if inside_change(offset as int, spans(changes@)) {
                r == Err::<Option<u64>, RepairError>(RepairError::InsideChangedRecord)
            } else if 0 <= moved <= u64::MAX {
                r == Ok::<Option<u64>, RepairError>(Some(moved as u64))
            } else {
                r == Err::<Option<u64>, RepairError>(RepairError::OffsetOutOfRange)
            }
        }),
{
    if !owns_it {
        return Ok(None);
    }
    match translated_offset(offset, changes) {
        Ok(moved) => Ok(Some(moved)),
        Err(error) => Err(error),
    }
}

// ---------------------------------------------------------------------------
// Repairing all rollouts
// ---------------------------------------------------------------------------

/// How old a file is against the time of the last repair.
#[derive(Debug, Clone, Copy, PartialEq, Eq, Structural)]
pub enum Age {
    /// No time limits the scan.
    Any,
    /// Modified after the last repair.
    Newer,
    /// Not modified since the last repair.
    Older,
    /// Not to be found out.
    Unknown,
}

/// What became of a rollout that was to be repaired.
#[derive(Debug, Clone, Copy, PartialEq, Eq, Structural)]
pub enum FileOutcome {
    /// Nothing was done with it.
    Untouched,
    /// It could not be repaired.
    Failed,
    /// Another writer holds it.
    Active,
    /// It was looked at, and so many of its items need a repair.
    Done(usize),
}

/// What was met in a walk through the session directories.
#[derive(Debug, PartialEq, Eq)]
pub enum WalkEntry {
    /// Something that could not be entered.
    Unreadable,
    /// A file or a directory.
    Found { path: String, name: String, is_file: bool, age: Age, outcome: FileOutcome },
}

/// What is to be done with an entry.
#[derive(Debug, Clone, Copy, PartialEq, Eq, Structural)]
pub enum Selection {
    Ignore,
    Defer,
    Repair,
}

/// What is to be done with an entry: rollouts are repaired unless they were not modified
/// since the last repair and were not put off then.
pub open spec fn selection(entry: WalkEntry, deferred: Seq<Seq<char>>) -> Selection {
    match entry {
        WalkEntry::Unreadable => Selection::Ignore,
        WalkEntry::Found { path, name, is_file, age, .. } => if !is_file || !rollout_name(name@) {
            Selection::Ignore
        } else {
            match age {
                Age::Any => Selection::Repair,
                Age::Newer => Selection::Repair,
                Age::Unknown => Selection::Defer,
                Age::Older => if deferred.contains(path@) {
                    Selection::Repair
                } else {
                    Selection::Ignore
                },
            }
        },
    }
}

/// What is to be done with an entry.
pub fn select_entry(entry: &WalkEntry, deferred: &Vec<String>) -> (r: Selection)
    ensures
        r == selection(*entry, views(deferred@)),
{
    match entry {
        WalkEntry::Unreadable => Selection::Ignore,
        WalkEntry::Found { path, name, is_file, age, .. } => {
            if !*is_file || !is_rollout_name(name.as_str()) {
                return Selection::Ignore;
            }
            match age {
                Age::Any => Selection::Repair,
                Age::Newer => Selection::Repair,
                Age::Unknown => Selection::Defer,
                Age::Older => {
                    if list_contains(deferred, path.as_str()) {
                        Selection::Repair
                    } else {
                        Selection::Ignore
                    }
                },
            }
        },
    }
}

/// Whether an entry is repaired.
pub open spec fn is_scanned(entry: WalkEntry, deferred: Seq<Seq<char>>) -> bool {
    selection(entry, deferred) == Selection::Repair
}

/// How many items of an entry need a repair.
pub open spec fn items_in(entry: WalkEntry, deferred: Seq<Seq<char>>) -> nat {
    match entry {
        WalkEntry::Found { outcome: FileOutcome::Done(n), .. } => if is_scanned(entry, deferred) {
            n as nat
        } else {
            0
        },
        _ => 0,
    }
}

/// Whether an entry is repaired and found active. A dry run holds no rollout, so it finds none
/// active.
pub open spec fn is_active(entry: WalkEntry, deferred: Seq<Seq<char>>, apply: bool) -> bool {
    apply && is_scanned(entry, deferred) && entry->outcome == FileOutcome::Active
}

/// Whether an entry counts as an error: not to be entered, of unknown age, or not repaired.
pub open spec fn is_error(entry: WalkEntry, deferred: Seq<Seq<char>>) -> bool {
    entry is Unreadable || selection(entry, deferred) == Selection::Defer || (is_scanned(
        entry,
        deferred,
    ) && entry->outcome == FileOutcome::Failed)
}

/// The path of an entry that the next repair looks at again.
pub open spec fn put_off(entry: WalkEntry, deferred: Seq<Seq<char>>, apply: bool) -> Option<
    Seq<char>,
> {
    if entry is Found && (is_active(entry, deferred, apply) || is_error(entry, deferred)) {
        Some(entry->path@)
    } else {
        None
    }
}

/// What a repair of injected items did, or would do.
#[derive(Debug, PartialEq, Eq)]
pub struct InjectionRepairSummary {
    pub rollouts_scanned: usize,
    pub rollouts_affected: usize,
    pub rollouts_repaired: usize,
    pub items_repaired: usize,
    pub errors: usize,
    pub traversal_errors: usize,
    pub skipped_active: usize,
    pub deferred_rollouts: Vec<String>,
    pub backup_dir: Option<String>,
}

/// How many rollouts were looked at.
pub open spec fn scanned_count(entries: Seq<WalkEntry>, deferred: Seq<Seq<char>>) -> nat {
    entries.filter(|e: WalkEntry| is_scanned(e, deferred)).len()
}

/// How many rollouts need a repair.
pub open spec fn injured_count(entries: Seq<WalkEntry>, deferred: Seq<Seq<char>>) -> nat {
    entries.filter(|e: WalkEntry| items_in(e, deferred) > 0).len()
}

/// How many items need a repair.
pub open spec fn injured_items(entries: Seq<WalkEntry>, deferred: Seq<Seq<char>>) -> nat {
    total(entries, |e: WalkEntry| items_in(e, deferred))
}

/// How many errors there were.
pub open spec fn error_count(entries: Seq<WalkEntry>, deferred: Seq<Seq<char>>) -> nat {
    entries.filter(|e: WalkEntry| is_error(e, deferred)).len()
}

/// How many entries could not be entered.
pub open spec fn unreadable_count(entries: Seq<WalkEntry>) -> nat {
    entries.filter(|e: WalkEntry| e is Unreadable).len()
}

/// How many rollouts another writer held.
pub open spec fn active_count(
    entries: Seq<WalkEntry>,
    deferred: Seq<Seq<char>>,
    apply: bool,
) -> nat {
    entries.filter(|e: WalkEntry| is_active(e, deferred, apply)).len()
}

/// The rollouts that the next repair looks at again.
pub open spec fn put_off_paths(
    entries: Seq<WalkEntry>,
    deferred: Seq<Seq<char>>,
    apply: bool,
) -> Seq<Seq<char>> {
    entries.filter_map(|e: WalkEntry| put_off(e, deferred, apply))
}

/// Sums up a repair of injected items, in which rollouts that an earlier one put off are
/// looked at again. The backup directory is named where the repair made one.
pub fn repair_with_deferred(
    entries: &Vec<WalkEntry>,
    deferred: &Vec<String>,
    apply: bool,
    backup_dir: Option<String>,
) -> (r: InjectionRepairSummary)
    requires
        injured_items(entries@, views(deferred@)) <= usize::MAX,
    ensures
        ({
            let d = views(deferred@);
            &&& r.rollouts_scanned == scanned_count(entries@, d)
            &&& r.rollouts_affected == injured_count(entries@, d)
            &&& r.rollouts_repaired == (if apply {
                injured_count(entries@, d)
            } else {
                0
            })
            &&& r.items_repaired == injured_items(entries@, d)
            &&& r.errors == error_count(entries@, d)
            &&& r.traversal_errors == unreadable_count(entries@)
            &&& r.skipped_active == active_count(entries@, d, apply)
            &&& !apply ==> r.skipped_active == 0
            &&& views(r.deferred_rollouts@) == put_off_paths(entries@, d, apply)
            &&& opt_view(r.backup_dir) == (if apply {
                opt_view(backup_dir)
            } else {
                None
            })
        }),
{
    let ghost d = views(deferred@);
    let ghost scanned = |e: WalkEntry| is_scanned(e, d);
    let ghost injured = |e: WalkEntry| items_in(e, d) > 0;
    let ghost counted = |e: WalkEntry| items_in(e, d);
    let ghost failed = |e: WalkEntry| is_error(e, d);
    let ghost unreadable = |e: WalkEntry| e is Unreadable;
    let ghost active = |e: WalkEntry| is_active(e, d, apply);
    let ghost kept = |e: WalkEntry| put_off(e, d, apply);
    let mut summary = InjectionRepairSummary {
        rollouts_scanned: 0,
        rollouts_affected: 0,
        rollouts_repaired: 0,
        items_repaired: 0,
        errors: 0,
        traversal_errors: 0,
        skipped_active: 0,
        deferred_rollouts: Vec::new(),
        backup_dir: None,
    };
    let mut i: usize = 0;
    proof {
        lemma_no_items(entries@);
        reveal_with_fuel(Seq::filter_map, 1);
        assert(views(summary.deferred_rollouts@) =~= entries@.take(0).filter_map(kept));
    }
    while i < entries.len()
        invariant
            i <= entries@.len(),
            d == views(deferred@),
            scanned == (|e: WalkEntry| is_scanned(e, d)),
            injured == (|e: WalkEntry| items_in(e, d) > 0),
            counted == (|e: WalkEntry| items_in(e, d)),
            failed == (|e: WalkEntry| is_error(e, d)),
            unreadable == (|e: WalkEntry| e is Unreadable),
            active == (|e: WalkEntry| is_active(e, d, apply)),
            kept == (|e: WalkEntry| put_off(e, d, apply)),
            total(entries@, counted) <= usize::MAX,
            summary.rollouts_repaired == 0,
            summary.backup_dir is None,
            summary.rollouts_scanned <= i,
            summary.rollouts_affected <= i,
            summary.errors <= i,
            summary.traversal_errors <= i,
            summary.skipped_active <= i,
            !apply ==> summary.skipped_active == 0,
            summary.rollouts_scanned == entries@.take(i as int).filter(scanned).len(),
            summary.rollouts_affected == entries@.take(i as int).filter(injured).len(),
            summary.items_repaired == total(entries@.take(i as int), counted),
            summary.errors == entries@.take(i as int).filter(failed).len(),
            summary.traversal_errors == entries@.take(i as int).filter(unreadable).len(),
            summary.skipped_active == entries@.take(i as int).filter(active).len(),
            views(summary.deferred_rollouts@) == entries@.take(i as int).filter_map(kept),
        decreases entries@.len() - i,
    {
        proof {
            lemma_filter_step(entries@, i as int, scanned);
            lemma_filter_step(entries@, i as int, injured);
            lemma_filter_step(entries@, i as int, failed);
            lemma_filter_step(entries@, i as int, unreadable);
            lemma_filter_step(entries@, i as int, active);
            lemma_total_step(entries@, i as int, counted);
            lemma_filter_map_step(entries@, i as int, kept);
        }
        let ghost before = views(summary.deferred_rollouts@);
        let mut again = false;
        match &entries[i] {
            WalkEntry::Unreadable => {
                summary.errors = summary.errors + 1;
                summary.traversal_errors = summary.traversal_errors + 1;
            },
            WalkEntry::Found { path, outcome, .. } => {
                match select_entry(&entries[i], deferred) {
                    Selection::Ignore => {},
                    Selection::Defer => {
                        summary.errors = summary.errors + 1;
                        again = true;
                    },
                    Selection::Repair => {
                        summary.rollouts_scanned = summary.rollouts_scanned + 1;
                        match outcome {
                            FileOutcome::Untouched => {},
                            FileOutcome::Failed => {
                                summary.errors = summary.errors + 1;
                                again = true;
                            },
                            FileOutcome::Active => {
                                if apply {
                                    summary.skipped_active = summary.skipped_active + 1;
                                    again = true;
                                }
                            },
                            FileOutcome::Done(items) => {
                                if *items > 0 {
                                    summary.rollouts_affected = summary.rollouts_affected + 1;
                                }
                                summary.items_repaired = summary.items_repaired + *items;
                            },
                        }
                    },
                }
                if again {
                    summary.deferred_rollouts.push(path.clone());
                    proof {
                        assert(views(summary.deferred_rollouts@) =~= before.push(path@));
                    }
                }
            },
        }
        i += 1;
    }
    proof {
        lemma_no_items(entries@);
    }
    if apply {
        summary.rollouts_repaired = summary.rollouts_affected;
        summary.backup_dir = backup_dir;
    }
    summary
}

/// Sums up a repair of injected items that no earlier one precedes.
pub fn repair_injected_items(
    entries: &Vec<WalkEntry>,
    apply: bool,
    backup_dir: Option<String>,
) -> (r: InjectionRepairSummary)
    requires
        injured_items(entries@, Seq::empty()) <= usize::MAX,
    ensures
        r.rollouts_scanned == scanned_count(entries@, Seq::empty()),
        r.rollouts_affected == injured_count(entries@, Seq::empty()),
        r.rollouts_repaired == (if apply {
            injured_count(entries@, Seq::empty())
        } else {
            0
        }),
        r.items_repaired == injured_items(entries@, Seq::empty()),
        r.errors == error_count(entries@, Seq::empty()),
        r.traversal_errors == unreadable_count(entries@),
        r.skipped_active == active_count(entries@, Seq::empty(), apply),
        !apply ==> r.skipped_active == 0,
        views(r.deferred_rollouts@) == put_off_paths(entries@, Seq::empty(), apply),
        opt_view(r.backup_dir) == (if apply {
            opt_view(backup_dir)
        } else {
            None
        }),
{
    let none: Vec<String> = Vec::new();
    proof {
        assert(views(none@) =~= Seq::<Seq<char>>::empty());
    }
    repair_with_deferred(entries, &none, apply, backup_dir)
}

/// What is put off is looked at by the next repair, whatever its age, as long as it can be
/// told.
pub proof fn what_is_put_off_is_tried_again(
    entry: WalkEntry,
    deferred: Seq<Seq<char>>,
    apply: bool,
    later: WalkEntry,
    still_deferred: Seq<Seq<char>>,
)
    requires
        put_off(entry, deferred, apply) is Some,
        later is Found,
        later->path == entry->path,
        later->name == entry->name,
        later->is_file,
        later->age != Age::Unknown,
        still_deferred.contains(put_off(entry, deferred, apply)->0),
    ensures
        is_scanned(later, still_deferred),
{
}

} // verus!
