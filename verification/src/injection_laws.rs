//! What holds of the repair of injected items, said of the members of the items and the
//! characters of the texts themselves.
use vstd::prelude::*;

use crate::injections::{
    active_count, analysis_message, builds_on_other, changes_of, error_count, has_oversized,
    injected_line_repair, injured_count, injured_items, inside_change, is_foreign_reasoning,
    is_orphan, is_placeholder, is_uuid, item_repair, items_in, put_off, put_off_paths,
    record_repair, refusal, repair_count, repaired_items, repaired_record, repaired_records,
    row_repair, scanned_count, selection, shift_at, thread_of, unreadable_count, user_message,
    valid_thread_id, Age, FileOutcome, RepairError, Selection, WalkEntry,
};
use crate::json::{json_of_text, json_text, JsonTree};
use crate::lists::{lemma_filter_map_step, lemma_filter_step, lemma_total_step};
use crate::session_laws::{
    is_plain_text, names_are_judged_by_their_characters, normalized_names_are_plain,
};
use crate::sessions::{normalized_tool_name, Members};
use crate::text::{
    concat, contains_text, last_index, records_of, trim_back, utf8_len, without_prefix, CharClass,
};

verus! {

// ---------------------------------------------------------------------------
// Identities
// ---------------------------------------------------------------------------

/// Whether a character is a hexadecimal digit.
pub open spec fn is_hex(c: char) -> bool {
    '0' <= c <= '9' || 'a' <= c <= 'f' || 'A' <= c <= 'F'
}

/// Whether a text is made of hexadecimal digits.
pub open spec fn all_hex(s: Seq<char>) -> bool {
    forall|i: int| 0 <= i < s.len() ==> is_hex(#[trigger] s[i])
}

/// Five groups of eight, four, four, four and twelve hexadecimal digits between hyphens are a
/// universally unique identifier.
pub proof fn five_groups_are_an_identifier(
    a: Seq<char>,
    b: Seq<char>,
    c: Seq<char>,
    d: Seq<char>,
    e: Seq<char>,
)
    requires
        a.len() == 8 && all_hex(a),
        b.len() == 4 && all_hex(b),
        c.len() == 4 && all_hex(c),
        d.len() == 4 && all_hex(d),
        e.len() == 12 && all_hex(e),
    ensures
        is_uuid(a.push('-') + b.push('-') + c.push('-') + d.push('-') + e),
{
    let s = a.push('-') + b.push('-') + c.push('-') + d.push('-') + e;
    assert(s.len() == 36);
    assert forall|i: int| 0 <= i < 36 implies if i == 8 || i == 13 || i == 18 || i == 23 {
        #[trigger] s[i] == '-'
    } else {
        crate::injections::hex_char(s[i])
    } by {
        if i < 8 {
            assert(s[i] == a[i]);
        } else if 8 < i < 13 {
            assert(s[i] == b[i - 9]);
        } else if 13 < i < 18 {
            assert(s[i] == c[i - 14]);
        } else if 18 < i < 23 {
            assert(s[i] == d[i - 19]);
        } else if 23 < i {
            assert(s[i] == e[i - 24]);
        }
    }
}

/// Every character of an identifier counts: one that is put in the place of a hyphen must be a
/// hyphen, and one that is put elsewhere a hexadecimal digit. No other length is an identifier.
pub proof fn each_character_of_an_identifier_counts(s: Seq<char>, i: int, c: char)
    ensures
        is_uuid(s) && (i == 8 || i == 13 || i == 18 || i == 23) ==> (is_uuid(s.update(i, c))
            <==> c == '-'),
        is_uuid(s) && 0 <= i < 36 && i != 8 && i != 13 && i != 18 && i != 23 ==> (is_uuid(
            s.update(i, c),
        ) <==> is_hex(c)),
        s.len() != 36 ==> !is_uuid(s),
{
    if is_uuid(s) && 0 <= i < 36 {
        let t = s.update(i, c);
        assert(t[i] == c);
        assert forall|j: int| 0 <= j < 36 && j != i implies #[trigger] t[j] == s[j] by {}
    }
}

/// Content that was left out, an empty value, and an identifier with a number behind a hyphen
/// are placeholders; a text without a hyphen and any other value are not.
pub proof fn placeholders_are_identifiers_with_a_number(
    id: Seq<char>,
    number: Seq<char>,
    text: Seq<char>,
    other: JsonTree,
)
    requires
        !(other is Null),
        !(other is Text),
        is_uuid(id),
        number.len() > 0,
        forall|i: int| 0 <= i < number.len() ==> '0' <= #[trigger] number[i] <= '9',
        !text.contains('-'),
    ensures
        is_placeholder(None),
        is_placeholder(Some(JsonTree::Null)),
        is_placeholder(Some(JsonTree::Text(id.push('-') + number))),
        !is_placeholder(Some(JsonTree::Text(text))),
        !is_placeholder(Some(JsonTree::Text(id.push('-')))),
        !is_placeholder(Some(other)),
{
    let s = id.push('-') + number;
    assert forall|i: int| 0 <= i < number.len() implies number[i] != '-' by {}
    lemma_last_hyphen(id, number);
    lemma_last_hyphen(id, Seq::empty());
    lemma_no_hyphen(text);
    assert(s.take(id.len() as int) =~= id);
    assert(s.skip(id.len() as int + 1) =~= number);
    let bare = id.push('-');
    assert(bare + Seq::<char>::empty() =~= bare);
    assert(bare.skip(id.len() as int + 1).len() == 0);
}

proof fn lemma_last_hyphen(id: Seq<char>, number: Seq<char>)
    requires
        forall|i: int| 0 <= i < number.len() ==> #[trigger] number[i] != '-',
    ensures
        last_index(id.push('-') + number, '-') == Some(id.len()),
    decreases number.len(),
{
    let s = id.push('-') + number;
    if number.len() > 0 {
        let fewer = number.drop_last();
        assert(s.last() == number[number.len() - 1]);
        assert forall|i: int| 0 <= i < fewer.len() implies #[trigger] fewer[i] != '-' by {
            assert(fewer[i] == number[i]);
        }
        lemma_last_hyphen(id, fewer);
        assert(s.drop_last() =~= id.push('-') + fewer);
    } else {
        assert(s.last() == '-');
    }
}

proof fn lemma_no_hyphen(s: Seq<char>)
    requires
        !s.contains('-'),
    ensures
        last_index(s, '-') is None,
    decreases s.len(),
{
    if s.len() > 0 {
        assert(s.contains(s[s.len() - 1]));
        let fewer = s.drop_last();
        assert forall|i: int| 0 <= i < fewer.len() implies fewer[i] != '-' by {
            assert(s.contains(s[i]));
        }
        lemma_no_hyphen(fewer);
    }
}

// ---------------------------------------------------------------------------
// Items
// ---------------------------------------------------------------------------

proof fn lemma_words_differ()
    ensures
        "type"@.len() == 4 && "type"@[0] == 't',
        "name"@.len() == 4 && "name"@[0] == 'n',
        "id"@.len() == 2,
        "role"@.len() == 4 && "role"@[0] == 'r',
        "text"@.len() == 4 && "text"@[0] == 't' && "text"@[1] == 'e' && "type"@[1] == 'y',
        "channel"@.len() == 7 && "channel"@[1] == 'h',
        "content"@.len() == 7 && "content"@[1] == 'o',
        "payload"@.len() == 7,
        "message"@.len() == 7,
        "function_call"@.len() == 13 && "function_call"@[0] == 'f',
        "response_item"@.len() == 13 && "response_item"@[0] == 'r',
        "custom_tool_call"@.len() == 16,
        "reasoning"@.len() == 9 && "reasoning"@[0] == 'r',
        "compacted"@.len() == 9 && "compacted"@[0] == 'c',
        "function_call_output"@.len() == 20,
        "internal_chat_message_metadata_passthrough"@.len() == 42,
{
    reveal_strlit("type");
    reveal_strlit("name");
    reveal_strlit("id");
    reveal_strlit("role");
    reveal_strlit("text");
    reveal_strlit("channel");
    reveal_strlit("content");
    reveal_strlit("payload");
    reveal_strlit("message");
    reveal_strlit("function_call");
    reveal_strlit("response_item");
    reveal_strlit("custom_tool_call");
    reveal_strlit("reasoning");
    reveal_strlit("compacted");
    reveal_strlit("function_call_output");
    reveal_strlit("internal_chat_message_metadata_passthrough");
}

/// Whether a member of an object is a given text.
pub open spec fn says(m: Members, key: Seq<char>, text: Seq<char>) -> bool {
    m.contains_key(key) && m[key] == JsonTree::Text(text)
}

/// A tool call with a name that validation rejects gets a name that it accepts, and nothing else
/// of it changes; a tool call with any other name stays.
pub proof fn misnamed_items_are_renamed(m: Members, name: Seq<char>)
    requires
        says(m, "type"@, "function_call"@) || says(m, "type"@, "custom_tool_call"@),
        says(m, "name"@, name),
    ensures
        name.len() > 0 && is_plain_text(name) ==> item_repair(JsonTree::Object(m)) is None,
        name.len() == 0 || !is_plain_text(name) ==> exists|made: Seq<char>| #[trigger]
            is_plain_text(made) && made.len() > 0 && item_repair(JsonTree::Object(m)) == Some(
                JsonTree::Object(m.insert("name"@, JsonTree::Text(made))),
            ),
{
    lemma_words_differ();
    names_are_judged_by_their_characters(name);
    normalized_names_are_plain(name);
    assert(is_plain_text(normalized_tool_name(name)));
    assert(JsonTree::Object(m).text_at("name"@) == Some(name));
    assert(JsonTree::Object(m).text_at("type"@) == Some(m["type"@]->Text_0));
}

/// A message under the identity of an output gets the identity of a message with the same
/// ending, and nothing else of it changes; a message under any other identity stays.
pub proof fn relabelled_messages_get_their_identity(m: Members, ending: Seq<char>, id: Seq<char>)
    requires
        says(m, "type"@, "message"@),
    ensures
        says(m, "id"@, "fco_"@ + ending) ==> item_repair(JsonTree::Object(m)) == Some(
            JsonTree::Object(m.insert("id"@, JsonTree::Text("msg_"@ + ending))),
        ),
        says(m, "id"@, id) && !"fco_"@.is_prefix_of(id) ==> item_repair(JsonTree::Object(m)) is None,
        !m.contains_key("id"@) ==> item_repair(JsonTree::Object(m)) is None,
{
    lemma_words_differ();
    let old = "fco_"@ + ending;
    assert("fco_"@.is_prefix_of(old)) by {
        assert(old.subrange(0, "fco_"@.len() as int) =~= "fco_"@);
    }
    assert(old.skip("fco_"@.len() as int) =~= ending);
    assert(JsonTree::Object(m).text_at("type"@) == Some("message"@));
    if says(m, "id"@, old) {
        assert(JsonTree::Object(m).text_at("id"@) == Some(old));
    }
    if says(m, "id"@, id) {
        assert(JsonTree::Object(m).text_at("id"@) == Some(id));
    }
}

/// A part with a kind and a text, and nothing else.
pub open spec fn a_part(kind: Seq<char>, text: Seq<char>) -> JsonTree {
    JsonTree::Object(
        Map::<Seq<char>, JsonTree>::empty().insert("type"@, JsonTree::Text(kind)).insert(
            "text"@,
            JsonTree::Text(text),
        ),
    )
}

/// The parts of a kind with the given texts.
pub open spec fn parts_with(kind: Seq<char>, texts: Seq<Seq<char>>) -> Seq<JsonTree> {
    texts.map_values(|text: Seq<char>| a_part(kind, text))
}

/// The name of the metadata that goes along with an item.
pub open spec fn along() -> Seq<char> {
    "internal_chat_message_metadata_passthrough"@
}

/// Reasoning under a universally unique identifier, with a placeholder for its hidden content,
/// becomes a message of the assistant on the analysis channel: under the same identifier, with
/// the texts of the summary and then those of the content, with the metadata that goes along,
/// and with nothing else.
pub proof fn foreign_reasoning_becomes_a_message(
    m: Members,
    id: Seq<char>,
    summary: Seq<Seq<char>>,
    content: Seq<Seq<char>>,
)
    requires
        says(m, "type"@, "reasoning"@),
        says(m, "id"@, id),
        is_uuid(id),
        !m.contains_key("encrypted_content"@),
        m.contains_key("summary"@),
        m["summary"@] == JsonTree::Array(parts_with("summary_text"@, summary)),
        m.contains_key("content"@),
        m["content"@] == JsonTree::Array(parts_with("reasoning_text"@, content)),
        content.len() > 0,
    ensures
        ({
            let made = item_repair(JsonTree::Object(m));
            let it = made->0->Object_0;
            &&& made is Some
            &&& made->0 is Object
            &&& says(it, "type"@, "message"@)
            &&& says(it, "id"@, "msg_"@ + id)
            &&& says(it, "role"@, "assistant"@)
            &&& says(it, "channel"@, "analysis"@)
            &&& it.contains_key("content"@)
            &&& it["content"@] == JsonTree::Array(parts_with("output_text"@, summary + content))
            &&& it.contains_key(along()) <==> m.contains_key(along())
            &&& m.contains_key(along()) ==> it[along()] == m[along()]
            &&& forall|key: Seq<char>| #[trigger]
                it.contains_key(key) ==> key == "type"@ || key == "id"@ || key == "role"@ || key
                    == "channel"@ || key == "content"@ || key == along()
        }),
{
    lemma_words_differ();
    let item = JsonTree::Object(m);
    assert(item.text_at("type"@) == Some("reasoning"@));
    assert(item.text_at("id"@) == Some(id));
    lemma_parts("summary_text"@, summary);
    lemma_parts("reasoning_text"@, content);
    assert(is_foreign_reasoning(m));
    assert(!crate::injections::is_relabelled(m));
    assert(item_repair(item) == Some(JsonTree::Object(analysis_message(m))));
    let all = parts_with("summary_text"@, summary) + parts_with("reasoning_text"@, content);
    let texts = summary + content;
    assert forall|i: int| 0 <= i < all.len() implies (#[trigger] all[i]).text_at("text"@) == Some(
        texts[i],
    ) by {
        if i < summary.len() {
            assert(all[i] == a_part("summary_text"@, summary[i]));
        } else {
            assert(all[i] == a_part("reasoning_text"@, content[i - summary.len()]));
        }
    }
    let made = crate::injections::output_parts(all);
    assert(made =~= parts_with("output_text"@, texts)) by {
        assert forall|i: int| 0 <= i < all.len() implies #[trigger] made[i] == a_part(
            "output_text"@,
            texts[i],
        ) by {
            assert(all[i].text_at("text"@) == Some(texts[i]));
        }
    }
}

proof fn lemma_parts(kind: Seq<char>, texts: Seq<Seq<char>>)
    ensures
        crate::injections::all_text_parts(parts_with(kind, texts), kind),
{
    lemma_words_differ();
    let parts = parts_with(kind, texts);
    assert forall|i: int| 0 <= i < parts.len() implies crate::injections::is_text_part(
        #[trigger] parts[i],
        kind,
    ) by {
        assert(parts[i] == a_part(kind, texts[i]));
        assert(parts[i].text_at("text"@) == Some(texts[i]));
        assert(parts[i].text_at("type"@) == Some(kind));
    }
}

/// Reasoning under another identity, with hidden content of its own, without content or without
/// a summary stays.
pub proof fn other_reasoning_stays(m: Members)
    requires
        says(m, "type"@, "reasoning"@),
        ({
            ||| !m.contains_key("id"@)
            ||| m["id"@] is Text && !is_uuid(m["id"@]->Text_0)
            ||| m.contains_key("encrypted_content"@) && m["encrypted_content"@] is Text
                && !m["encrypted_content"@]->Text_0.contains('-')
            ||| !m.contains_key("content"@)
            ||| m["content"@] == JsonTree::Array(Seq::empty())
            ||| !m.contains_key("summary"@)
        }),
    ensures
        item_repair(JsonTree::Object(m)) is None,
{
    lemma_words_differ();
    assert(JsonTree::Object(m).text_at("type"@) == Some("reasoning"@));
    if m.contains_key("encrypted_content"@) && m["encrypted_content"@] is Text
        && !m["encrypted_content"@]->Text_0.contains('-') {
        lemma_no_hyphen(m["encrypted_content"@]->Text_0);
    }
}

/// The output of one of the two injected tools, without a call, becomes a message of the user:
/// with the output as its text, with the metadata that goes along, under the identity of a
/// message where it had one, and with nothing else.
pub proof fn orphans_become_messages(m: Members, output: Seq<char>, ending: Seq<char>)
    requires
        says(m, "type"@, "function_call_output"@),
        says(m, "namespace"@, "codex_app"@),
        says(m, "name"@, "automation_update"@) || says(m, "name"@, "send_message_to_thread"@),
        says(m, "output"@, output),
        !m.contains_key("call_id"@),
    ensures
        ({
            let made = item_repair(JsonTree::Object(m));
            let it = made->0->Object_0;
            &&& made is Some
            &&& made->0 is Object
            &&& says(it, "type"@, "message"@)
            &&& says(it, "role"@, "user"@)
            &&& it.contains_key("content"@)
            &&& it["content"@] == JsonTree::Array(seq![a_part("input_text"@, output)])
            &&& !m.contains_key("id"@) ==> !it.contains_key("id"@)
            &&& says(m, "id"@, "fco_"@ + ending) ==> says(it, "id"@, "msg_"@ + ending)
            &&& says(m, "id"@, "msg_"@ + ending) ==> says(it, "id"@, "msg_"@ + ending)
            &&& forall|id: Seq<char>| #![trigger says(m, "id"@, id)]
                says(m, "id"@, id) && !"fco_"@.is_prefix_of(id) && !"msg_"@.is_prefix_of(id)
                    ==> says(it, "id"@, "msg_"@ + id)
            &&& it.contains_key(along()) <==> m.contains_key(along())
            &&& m.contains_key(along()) ==> it[along()] == m[along()]
            &&& forall|key: Seq<char>| #[trigger]
                it.contains_key(key) ==> key == "type"@ || key == "id"@ || key == "role"@ || key
                    == "content"@ || key == along()
        }),
{
    lemma_words_differ();
    let item = JsonTree::Object(m);
    assert(item.text_at("type"@) == Some("function_call_output"@));
    assert(item.text_at("output"@) == Some(output));
    assert(item.text_at("namespace"@) == Some("codex_app"@));
    assert(is_orphan(m));
    assert(item_repair(item) == Some(JsonTree::Object(user_message(m))));
    lemma_prefixes(ending);
    if says(m, "id"@, "fco_"@ + ending) {
        assert(item.text_at("id"@) == Some("fco_"@ + ending));
    }
    if says(m, "id"@, "msg_"@ + ending) {
        assert(item.text_at("id"@) == Some("msg_"@ + ending));
    }
}

proof fn lemma_prefixes(ending: Seq<char>)
    ensures
        without_prefix("fco_"@ + ending, "fco_"@) == Some(ending),
        without_prefix("fco_"@ + ending, "msg_"@) is None,
        without_prefix("msg_"@ + ending, "msg_"@) is Some,
{
    reveal_strlit("fco_");
    reveal_strlit("msg_");
    let old = "fco_"@ + ending;
    let new = "msg_"@ + ending;
    assert(old.subrange(0, 4) =~= "fco_"@);
    assert(new.subrange(0, 4) =~= "msg_"@);
    assert(old.skip(4) =~= ending);
    assert(old[0] == 'f');
    assert("msg_"@[0] == 'm');
    assert(old.subrange(0, 4)[0] == 'f');
}

/// An output with a call, of another tool, or outside the namespace stays, and so does an item
/// of any other kind and whatever is no object.
pub proof fn other_items_stay(m: Members, tree: JsonTree)
    requires
        ({
            ||| says(m, "type"@, "function_call_output"@) && (m.contains_key("call_id"@)
                || !m.contains_key("namespace"@) || m["namespace"@] != JsonTree::Text("codex_app"@)
                || !m.contains_key("name"@) || (m["name"@] != JsonTree::Text("automation_update"@)
                && m["name"@] != JsonTree::Text("send_message_to_thread"@)) || !m.contains_key(
                "output"@,
            ) || !(m["output"@] is Text))
            ||| !m.contains_key("type"@)
            ||| !(m["type"@] is Text)
            ||| m["type"@]->Text_0 != "function_call_output"@ && m["type"@]->Text_0
                != "function_call"@ && m["type"@]->Text_0 != "custom_tool_call"@
                && m["type"@]->Text_0 != "message"@ && m["type"@]->Text_0 != "reasoning"@
        }),
        !(tree is Object),
    ensures
        item_repair(JsonTree::Object(m)) is None,
        item_repair(tree) is None,
{
    lemma_words_differ();
    if says(m, "type"@, "function_call_output"@) {
        assert(JsonTree::Object(m).text_at("type"@) == Some("function_call_output"@));
    }
}

// ---------------------------------------------------------------------------
// Rows and lines
// ---------------------------------------------------------------------------

/// A response item is repaired where its item is; the rest of the row stays.
pub proof fn response_items_are_repaired(row: Members, item: JsonTree)
    requires
        says(row, "type"@, "response_item"@),
        row.contains_key("payload"@),
        row["payload"@] == item,
    ensures
        item_repair(item) is None ==> row_repair(JsonTree::Object(row)) is None,
        item_repair(item) is Some ==> row_repair(JsonTree::Object(row)) == Some(
            JsonTree::Object(row.insert("payload"@, item_repair(item)->0)),
        ),
{
    assert(JsonTree::Object(row).text_at("type"@) == Some("response_item"@));
}

/// A compacted row is repaired where one of its items is: each item for itself, with the rest
/// of the row and of its payload as it was.
pub proof fn compacted_rows_are_repaired(row: Members, payload: Members, items: Seq<JsonTree>)
    requires
        says(row, "type"@, "compacted"@),
        row.contains_key("payload"@),
        row["payload"@] == JsonTree::Object(payload),
        payload.contains_key("replacement_history"@),
        payload["replacement_history"@] == JsonTree::Array(items),
    ensures
        (forall|i: int| 0 <= i < items.len() ==> item_repair(#[trigger] items[i]) is None)
            ==> row_repair(JsonTree::Object(row)) is None,
        (exists|i: int| 0 <= i < items.len() && item_repair(#[trigger] items[i]) is Some) ==> ({
            let made = repaired_items(items);
            &&& row_repair(JsonTree::Object(row)) == Some(
                JsonTree::Object(
                    row.insert(
                        "payload"@,
                        JsonTree::Object(
                            payload.insert("replacement_history"@, JsonTree::Array(made)),
                        ),
                    ),
                ),
            )
            &&& made.len() == items.len()
            &&& forall|i: int| #![trigger made[i]]
                0 <= i < items.len() ==> (item_repair(items[i]) is Some ==> made[i] == item_repair(
                    items[i],
                )->0) && (item_repair(items[i]) is None ==> made[i] == items[i])
        }),
{
    lemma_words_differ();
    assert(JsonTree::Object(row).text_at("type"@) == Some("compacted"@));
}

/// Rows of other kinds stay.
pub proof fn other_rows_stay(row: Members)
    requires
        !says(row, "type"@, "response_item"@),
        !says(row, "type"@, "compacted"@),
    ensures
        row_repair(JsonTree::Object(row)) is None,
{
}

/// A line is repaired where it names one of the two kinds and holds a row that is repaired; it
/// is then the document of the repaired row.
pub proof fn lines_hold_their_rows(line: Seq<char>, row: JsonTree)
    requires
        json_of_text(line) == Some(row),
        contains_text(line, "\"response_item\""@) || contains_text(line, "\"compacted\""@),
    ensures
        row_repair(row) is None ==> injected_line_repair(line) is None,
        row_repair(row) is Some ==> injected_line_repair(line) == Some(
            json_text(row_repair(row)->0),
        ),
{
}

/// A line that is no document stays, and so does one that names neither of the two kinds.
pub proof fn other_lines_stay(line: Seq<char>)
    requires
        json_of_text(line) is None || (!contains_text(line, "\"response_item\""@)
            && !contains_text(line, "\"compacted\""@)),
    ensures
        injected_line_repair(line) is None,
{
}

/// A repaired record ends as it did: with a line feed, with a carriage return and a line feed,
/// or without either.
pub proof fn a_repaired_record_ends_as_it_did(line: Seq<char>)
    requires
        line.len() > 0,
        line.last() != '\n',
        line.last() != '\r',
    ensures
        injected_line_repair(line) matches Some(made) ==> record_repair(line) == Some(made)
            && record_repair(line.push('\n')) == Some(made.push('\n')) && record_repair(
            line.push('\r').push('\n'),
        ) == Some(made.push('\r').push('\n')),
        injected_line_repair(line) is None ==> record_repair(line) is None && record_repair(
            line.push('\n'),
        ) is None && record_repair(line.push('\r').push('\n')) is None,
{
    reveal_with_fuel(trim_back, 3);
    let one = line.push('\n');
    let two = line.push('\r').push('\n');
    assert(one.drop_last() =~= line);
    assert(two.drop_last() =~= line.push('\r'));
    assert(line.push('\r').drop_last() =~= line);
    assert(trim_back(line, CharClass::LineEnd) =~= line);
    assert(trim_back(one, CharClass::LineEnd) =~= line);
    assert(trim_back(two, CharClass::LineEnd) =~= line);
    if injected_line_repair(line) is Some {
        let made = injected_line_repair(line)->0;
        assert(made + Seq::<char>::empty() =~= made);
        assert(made + seq!['\n'] =~= made.push('\n'));
        assert(made + seq!['\r', '\n'] =~= made.push('\r').push('\n'));
    }
}

/// Records are repaired one by one; each repair is counted, and noted with the bytes that the
/// old record took up and with the length of the new one.
pub proof fn records_are_repaired_one_by_one(recs: Seq<Seq<char>>, record: Seq<char>)
    ensures
        ({
            let more = recs.push(record);
            let start = utf8_len(concat(recs)) as int;
            &&& record_repair(record) matches Some(made) ==> repaired_records(more)
                == repaired_records(recs).push(made) && repair_count(more) == repair_count(recs) + 1
                && changes_of(more) == changes_of(recs).push(
                (start, start + utf8_len(record), utf8_len(made) as int),
            )
            &&& record_repair(record) is None ==> repaired_records(more) == repaired_records(
                recs,
            ).push(record) && repair_count(more) == repair_count(recs) && changes_of(more)
                == changes_of(recs)
        }),
        repair_count(Seq::empty()) == 0,
        changes_of(Seq::empty()).len() == 0,
        repaired_records(Seq::empty()).len() == 0,
{
    let more = recs.push(record);
    let n = recs.len() as int;
    let pred = |r: Seq<char>| record_repair(r) is Some;
    assert(more.take(n) =~= recs);
    assert(more.take(n + 1) =~= more);
    assert(more.drop_last() =~= recs);
    lemma_filter_step(more, n, pred);
    reveal_with_fuel(Seq::filter, 1);
    assert(repaired_records(more) =~= repaired_records(recs).push(repaired_record(record)));
}

// ---------------------------------------------------------------------------
// Refusals
// ---------------------------------------------------------------------------

/// A record behind the first one is too large above 128 MiB; the first one never is.
pub proof fn large_records_are_those_above_the_limit(recs: Seq<Seq<char>>, record: Seq<char>)
    ensures
        recs.len() <= 1 ==> !has_oversized(recs),
        recs.len() > 0 && utf8_len(record) > 128 * 1024 * 1024 ==> has_oversized(recs.push(record)),
        recs.len() > 0 && utf8_len(record) <= 128 * 1024 * 1024 ==> (has_oversized(
            recs.push(record),
        ) <==> has_oversized(recs)),
{
    let more = recs.push(record);
    assert forall|i: int| 0 <= i < recs.len() implies more[i] == #[trigger] recs[i] by {}
    assert(more[recs.len() as int] == record);
    if has_oversized(recs) {
        let i = choose|i: int|
            0 < i < recs.len() && utf8_len(#[trigger] recs[i])
                > crate::injections::MAX_RECORD_BYTES;
        assert(utf8_len(more[i]) > crate::injections::MAX_RECORD_BYTES);
    }
}

/// A thread is named by the letters and digits of ASCII and by hyphens, and by nothing else.
pub proof fn threads_are_named_plainly(id: Seq<char>, c: char)
    ensures
        !valid_thread_id(Seq::empty()),
        valid_thread_id(seq![c]) <==> 'a' <= c <= 'z' || 'A' <= c <= 'Z' || '0' <= c <= '9' || c
            == '-',
        id.len() > 0 ==> (valid_thread_id(id.push(c)) <==> valid_thread_id(id) && valid_thread_id(
            seq![c],
        )),
{
    let one = seq![c];
    assert(one[0] == c);
    let more = id.push(c);
    assert(more[id.len() as int] == c);
    assert forall|i: int| 0 <= i < id.len() implies more[i] == #[trigger] id[i] by {}
    if id.len() > 0 && valid_thread_id(more) {
        assert forall|i: int| 0 <= i < id.len() implies crate::injections::thread_char(
            #[trigger] id[i],
        ) by {
            assert(more[i] == id[i]);
        }
    }
}

/// The thread of a rollout and whether it builds on another one are read from the payload of its
/// first record.
pub proof fn the_first_record_names_the_thread(
    record: Seq<char>,
    row: Members,
    payload: Members,
    id: Seq<char>,
)
    requires
        json_of_text(record) == Some(JsonTree::Object(row)),
        row.contains_key("payload"@),
        row["payload"@] == JsonTree::Object(payload),
    ensures
        says(payload, "id"@, id) ==> thread_of(record) == Some(id),
        !payload.contains_key("id"@) ==> thread_of(record) is None,
        payload.contains_key("history_base"@) && payload["history_base"@] != JsonTree::Null
            ==> builds_on_other(record),
        !payload.contains_key("history_base"@) || payload["history_base"@] == JsonTree::Null
            ==> !builds_on_other(record),
{
    assert(JsonTree::Object(row).get("payload"@) == Some(JsonTree::Object(payload)));
}

/// A rollout is written only under a valid identity, and not where it builds on another one; a
/// record that is too large puts any repair off. Nothing else is refused.
pub proof fn refusals_have_their_reasons(content: Seq<char>, first: Seq<char>)
    requires
        records_of(content).len() > 0,
        first == records_of(content)[0],
    ensures
        ({
            let recs = records_of(content);
            let id = thread_of(first);
            let unnamed = id is Some && !valid_thread_id(id->0);
            &&& unnamed ==> refusal(content, true) == Some(RepairError::InvalidIdentity)
            &&& !unnamed && has_oversized(recs) ==> refusal(content, true) == Some(
                RepairError::OversizedRecord,
            )
            &&& has_oversized(recs) ==> refusal(content, false) == Some(
                RepairError::OversizedRecord,
            )
            &&& !has_oversized(recs) ==> refusal(content, false) is None
            &&& !unnamed && !has_oversized(recs) && repair_count(recs) == 0 ==> refusal(
                content,
                true,
            ) is None
            &&& !has_oversized(recs) && repair_count(recs) > 0 && id is None ==> refusal(
                content,
                true,
            ) == Some(RepairError::MissingIdentity)
            &&& !unnamed && !has_oversized(recs) && repair_count(recs) > 0 && id is Some
                && builds_on_other(first) ==> refusal(content, true) == Some(
                RepairError::SegmentedHistory,
            )
            &&& !unnamed && !has_oversized(recs) && id is Some && !builds_on_other(first)
                ==> refusal(content, true) is None
        }),
{
}

// ---------------------------------------------------------------------------
// Checkpoints
// ---------------------------------------------------------------------------

/// A change moves what lies behind it by as many bytes as the record grew; what lies before it
/// stays; and what lies inside it cannot be moved.
pub proof fn a_change_moves_what_is_behind_it(
    changes: Seq<(int, int, int)>,
    start: int,
    end: int,
    length: int,
    offset: int,
)
    requires
        start <= end,
    ensures
        ({
            let more = changes.push((start, end, length));
            &&& offset >= end ==> shift_at(offset, more) == shift_at(offset, changes) + length - (end
                - start)
            &&& offset < end ==> shift_at(offset, more) == shift_at(offset, changes)
            &&& inside_change(offset, more) <==> inside_change(offset, changes) || start < offset
                < end
            &&& !inside_change(offset, Seq::empty())
            &&& shift_at(offset, Seq::empty()) == 0
        }),
{
    let more = changes.push((start, end, length));
    assert(more.drop_last() =~= changes);
    assert(more.last() == (start, end, length));
    assert(more[changes.len() as int] == (start, end, length));
    assert forall|i: int| 0 <= i < changes.len() implies more[i] == #[trigger] changes[i] by {}
    if inside_change(offset, changes) {
        let i = choose|i: int|
            0 <= i < changes.len() && (#[trigger] changes[i]).0 < offset < changes[i].1;
        assert(more[i].0 < offset < more[i].1);
    }
}

// ---------------------------------------------------------------------------
// All rollouts
// ---------------------------------------------------------------------------

/// A rollout file is repaired where it was modified since the last repair, where there was none,
/// or where it was put off; it is put off where its time cannot be found out. Nothing else is
/// looked at.
pub proof fn rollouts_are_selected(
    path: String,
    name: String,
    is_file: bool,
    age: Age,
    outcome: FileOutcome,
    deferred: Seq<Seq<char>>,
)
    ensures
        ({
            let entry = WalkEntry::Found { path, name, is_file, age, outcome };
            let is_rollout = is_file && "rollout-"@.is_prefix_of(name@) && ".jsonl"@.is_suffix_of(
                name@,
            );
            &&& !is_rollout ==> selection(entry, deferred) == Selection::Ignore
            &&& is_rollout && (age == Age::Any || age == Age::Newer) ==> selection(entry, deferred)
                == Selection::Repair
            &&& is_rollout && age == Age::Unknown ==> selection(entry, deferred) == Selection::Defer
            &&& is_rollout && age == Age::Older && deferred.contains(path@) ==> selection(
                entry,
                deferred,
            ) == Selection::Repair
            &&& is_rollout && age == Age::Older && !deferred.contains(path@) ==> selection(
                entry,
                deferred,
            ) == Selection::Ignore
        }),
        selection(WalkEntry::Unreadable, deferred) == Selection::Ignore,
{
}

/// One more entry is counted as what it is: as scanned where it was repaired, with its items
/// where it has some, as active where another writer held it and changes were to be made, and as
/// an error where it failed, could not be read or has no known time. Those that were active or
/// failed are put off.
pub proof fn walked_entries_are_counted(
    entries: Seq<WalkEntry>,
    entry: WalkEntry,
    deferred: Seq<Seq<char>>,
    apply: bool,
)
    ensures
        ({
            let more = entries.push(entry);
            let chosen = selection(entry, deferred);
            let repaired = chosen == Selection::Repair;
            let found = match entry {
                WalkEntry::Found { outcome: FileOutcome::Done(n), .. } => if repaired {
                    n as nat
                } else {
                    0nat
                },
                _ => 0nat,
            };
            let active = apply && repaired && entry is Found && entry->outcome
                == FileOutcome::Active;
            let failed = entry is Unreadable || chosen == Selection::Defer || (repaired && entry
                is Found && entry->outcome == FileOutcome::Failed);
            &&& scanned_count(more, deferred) == scanned_count(entries, deferred) + if repaired {
                1nat
            } else {
                0nat
            }
            &&& injured_items(more, deferred) == injured_items(entries, deferred) + found
            &&& injured_count(more, deferred) == injured_count(entries, deferred) + if found > 0 {
                1nat
            } else {
                0nat
            }
            &&& active_count(more, deferred, apply) == active_count(entries, deferred, apply)
                + if active {
                1nat
            } else {
                0nat
            }
            &&& error_count(more, deferred) == error_count(entries, deferred) + if failed {
                1nat
            } else {
                0nat
            }
            &&& unreadable_count(more) == unreadable_count(entries) + if entry is Unreadable {
                1nat
            } else {
                0nat
            }
            &&& entry is Found && (active || failed) ==> put_off_paths(more, deferred, apply)
                == put_off_paths(entries, deferred, apply).push(entry->path@)
            &&& entry is Unreadable || !(active || failed) ==> put_off_paths(more, deferred, apply)
                == put_off_paths(entries, deferred, apply)
        }),
        scanned_count(Seq::empty(), deferred) == 0,
        injured_items(Seq::empty(), deferred) == 0,
        injured_count(Seq::empty(), deferred) == 0,
        active_count(Seq::empty(), deferred, apply) == 0,
        error_count(Seq::empty(), deferred) == 0,
        unreadable_count(Seq::empty()) == 0,
        put_off_paths(Seq::empty(), deferred, apply).len() == 0,
{
    let more = entries.push(entry);
    let n = entries.len() as int;
    assert(more.take(n) =~= entries);
    assert(more.take(n + 1) =~= more);
    lemma_filter_step(more, n, |e: WalkEntry| crate::injections::is_scanned(e, deferred));
    lemma_filter_step(more, n, |e: WalkEntry| items_in(e, deferred) > 0);
    lemma_filter_step(more, n, |e: WalkEntry| crate::injections::is_active(e, deferred, apply));
    lemma_filter_step(more, n, |e: WalkEntry| crate::injections::is_error(e, deferred));
    lemma_filter_step(more, n, |e: WalkEntry| e is Unreadable);
    lemma_total_step(more, n, |e: WalkEntry| items_in(e, deferred));
    lemma_filter_map_step(more, n, |e: WalkEntry| put_off(e, deferred, apply));
    reveal_with_fuel(Seq::filter, 1);
    reveal_with_fuel(Seq::filter_map, 1);
}

} // verus!
