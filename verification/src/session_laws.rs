//! What holds of the rewriting and repair of rollouts, said of the fields of rows and the
//! characters of names themselves.
use vstd::prelude::*;

use crate::json::{json_of_text, json_text, JsonTree};
use crate::lists::{lemma_filter_map_step, lemma_filter_step, lemma_total_step};
use crate::order::text_before;
use crate::sessions::{
    all_lines_updated, backup_name, backup_time, collapsed, db_backups, db_failures, db_records,
    failed_count, invalid_names_in, lemma_field_names_differ, letters_before, line_is_misnamed,
    line_is_projection, line_repair, line_stale, line_update, metadata_update, misnamed_count,
    modified_count, normalized_names_are_valid, normalized_tool_name, projection_count,
    projections_in, rebuilt, repaired_lines, rewritten_line, rollout_name, skipped_count,
    stale_count, synced_count, synced_record, synced_records, thread_repair, updated_row,
    valid_tool_name, DbUpdateSummary, Members, RolloutOutcome, RolloutRepair,
};
use crate::text::{trim_back, trim_front, without_line_end, CharClass};
use crate::sessions::readable_rows;

verus! {

// ---------------------------------------------------------------------------
// Tool names
// ---------------------------------------------------------------------------

/// Whether a character is an ASCII letter, an ASCII digit, `_` or `-`.
pub open spec fn is_plain_char(c: char) -> bool {
    ||| 'a' <= c <= 'z'
    ||| 'A' <= c <= 'Z'
    ||| '0' <= c <= '9'
    ||| c == '_'
    ||| c == '-'
}

/// Whether a text is made of ASCII letters, ASCII digits, `_` and `-`.
pub open spec fn is_plain_text(s: Seq<char>) -> bool {
    forall|i: int| 0 <= i < s.len() ==> is_plain_char(#[trigger] s[i])
}

/// A name is valid exactly where it is not empty and each of its characters is a letter or a
/// digit of ASCII, an underscore or a hyphen.
pub proof fn names_are_judged_by_their_characters(name: Seq<char>)
    ensures
        valid_tool_name(name) <==> name.len() > 0 && is_plain_text(name),
{
    if valid_tool_name(name) {
        assert forall|i: int| 0 <= i < name.len() implies is_plain_char(#[trigger] name[i]) by {}
    }
    if name.len() > 0 && is_plain_text(name) {
        assert forall|i: int| 0 <= i < name.len() implies valid_tool_name(
            seq![#[trigger] name[i]],
        ) by {
            assert(is_plain_char(name[i]));
        }
        assert forall|i: int| 0 <= i < name.len() implies crate::sessions::tool_char(
            #[trigger] name[i],
        ) by {
            assert(is_plain_char(name[i]));
        }
    }
}

/// A name of one character is valid exactly where the character is a letter or a digit of
/// ASCII, an underscore or a hyphen.
pub proof fn one_character_is_a_name(c: char)
    ensures
        valid_tool_name(seq![c]) <==> ('a' <= c <= 'z' || 'A' <= c <= 'Z' || '0' <= c <= '9' || c
            == '_' || c == '-'),
{
    names_are_judged_by_their_characters(seq![c]);
    assert(seq![c][0] == c);
    assert(is_plain_text(seq![c]) <==> is_plain_char(c));
}

/// No other character is left in a normalized name, which is never empty.
pub proof fn normalized_names_are_plain(name: Seq<char>)
    ensures
        normalized_tool_name(name).len() > 0,
        is_plain_text(normalized_tool_name(name)),
{
    normalized_names_are_valid(name);
    names_are_judged_by_their_characters(normalized_tool_name(name));
}

proof fn lemma_collapsed_plain(name: Seq<char>)
    requires
        is_plain_text(name),
    ensures
        collapsed(name) == name,
    decreases name.len(),
{
    if name.len() > 0 {
        assert(is_plain_char(name[name.len() - 1]));
        assert forall|i: int| 0 <= i < name.drop_last().len() implies is_plain_char(
            #[trigger] name.drop_last()[i],
        ) by {
            assert(is_plain_char(name[i]));
        }
        lemma_collapsed_plain(name.drop_last());
        assert(name.drop_last().push(name.last()) =~= name);
    } else {
        assert(collapsed(name) =~= name);
    }
}

proof fn lemma_collapsed_run(head: Seq<char>, run: Seq<char>)
    requires
        is_plain_text(head),
        run.len() > 0,
        forall|i: int| 0 <= i < run.len() ==> !is_plain_char(#[trigger] run[i]),
    ensures
        collapsed(head + run) == head.push('_'),
    decreases run.len(),
{
    let s = head + run;
    let before = run.drop_last();
    assert(s.drop_last() =~= head + before);
    assert(s.last() == run[run.len() - 1]);
    if run.len() == 1 {
        lemma_collapsed_plain(head);
        assert(head + before =~= head);
        if head.len() > 0 {
            assert(s[s.len() - 2] == head[head.len() - 1]);
            assert(is_plain_char(head[head.len() - 1]));
        }
    } else {
        assert forall|i: int| 0 <= i < before.len() implies !is_plain_char(#[trigger] before[i]) by {
            assert(before[i] == run[i]);
        }
        lemma_collapsed_run(head, before);
        assert(s[s.len() - 2] == run[run.len() - 2]);
    }
}

proof fn lemma_collapsed_tail(head: Seq<char>, tail: Seq<char>)
    requires
        is_plain_text(tail),
    ensures
        collapsed(head + tail) == collapsed(head) + tail,
    decreases tail.len(),
{
    if tail.len() > 0 {
        let before = tail.drop_last();
        assert forall|i: int| 0 <= i < before.len() implies is_plain_char(#[trigger] before[i]) by {
            assert(before[i] == tail[i]);
        }
        lemma_collapsed_tail(head, before);
        assert((head + tail).drop_last() =~= head + before);
        assert((head + tail).last() == tail[tail.len() - 1]);
        assert(is_plain_char(tail[tail.len() - 1]));
        assert((collapsed(head) + before).push(tail.last()) =~= collapsed(head) + tail);
    } else {
        assert(head + tail =~= head);
        assert(collapsed(head) + tail =~= collapsed(head));
    }
}

/// A stretch of other characters inside a name becomes one underscore, and what stands before
/// and behind it stays.
pub proof fn other_characters_become_one_underscore(head: Seq<char>, run: Seq<char>, tail: Seq<char>)
    requires
        is_plain_text(head),
        is_plain_text(tail),
        head.len() > 0 && head[0] != '_',
        tail.len() > 0 && tail.last() != '_',
        run.len() > 0,
        forall|i: int| 0 <= i < run.len() ==> !is_plain_char(#[trigger] run[i]),
    ensures
        normalized_tool_name(head + run + tail) == head + seq!['_'] + tail,
        normalized_tool_name(head) == head || head.last() == '_',
{
    lemma_collapsed_run(head, run);
    lemma_collapsed_tail(head + run, tail);
    let made = head + seq!['_'] + tail;
    assert(collapsed(head + run + tail) =~= made);
    assert(made[0] == head[0]);
    assert(made.last() == tail.last());
    assert(trim_front(made, CharClass::Underscore) == made);
    assert(trim_back(made, CharClass::Underscore) == made);
    lemma_collapsed_plain(head);
}

/// Other characters at the ends of a name are dropped.
pub proof fn other_characters_at_the_ends_are_dropped(run: Seq<char>, name: Seq<char>)
    requires
        is_plain_text(name),
        name.len() > 0 && name[0] != '_' && name.last() != '_',
        run.len() > 0,
        forall|i: int| 0 <= i < run.len() ==> !is_plain_char(#[trigger] run[i]),
    ensures
        normalized_tool_name(run + name) == name,
        normalized_tool_name(name + run) == name,
{
    let none = Seq::<char>::empty();
    lemma_collapsed_run(none, run);
    assert(none + run =~= run);
    lemma_collapsed_tail(run, name);
    let first = seq!['_'] + name;
    assert(collapsed(run + name) =~= first);
    assert(first.drop_first() =~= name);
    assert(trim_front(name, CharClass::Underscore) == name);
    assert(trim_front(first, CharClass::Underscore) == name);
    assert(trim_back(name, CharClass::Underscore) == name);
    lemma_collapsed_run(name, run);
    let last = name.push('_');
    assert(trim_front(last, CharClass::Underscore) == last);
    assert(last.drop_last() =~= name);
    assert(trim_back(last, CharClass::Underscore) == name);
}

/// A name of nothing but other characters gets a fixed name.
pub proof fn nothing_plain_is_a_fixed_name(run: Seq<char>)
    requires
        forall|i: int| 0 <= i < run.len() ==> !is_plain_char(#[trigger] run[i]),
    ensures
        normalized_tool_name(run) == "legacy_tool"@,
{
    let none = Seq::<char>::empty();
    if run.len() > 0 {
        lemma_collapsed_run(none, run);
        assert(none + run =~= run);
        assert(collapsed(run) =~= seq!['_']);
        let one = seq!['_'];
        assert(one.drop_first() =~= none);
        assert(trim_front(none, CharClass::Underscore) == none);
        assert(trim_front(one, CharClass::Underscore) == none);
    } else {
        assert(run =~= none);
    }
}

// ---------------------------------------------------------------------------
// Metadata
// ---------------------------------------------------------------------------

/// Whether a member of an object is a text that differs from a target.
pub open spec fn text_differs(m: Members, key: Seq<char>, target: Seq<char>) -> bool {
    m.contains_key(key) && m[key] is Text && m[key]->Text_0 != target
}

/// Whether a member of an object is a text that is not empty and differs from a target.
pub open spec fn name_differs(m: Members, key: Seq<char>, target: Seq<char>) -> bool {
    text_differs(m, key, target) && m[key]->Text_0.len() > 0
}

/// Whether an object holds collaboration settings, and which.
pub open spec fn holds_settings(p: Members, settings: Members) -> bool {
    &&& p.contains_key("collaboration_mode"@)
    &&& p["collaboration_mode"@] is Object
    &&& p["collaboration_mode"@]->Object_0.contains_key("settings"@)
    &&& p["collaboration_mode"@]->Object_0["settings"@] == JsonTree::Object(settings)
}

/// Whether the fields of an object are those of another one, but name the target: each text
/// under `model_provider` is the provider, each text under `model` that is not empty is the
/// model, and everything else is as it was.
pub open spec fn names_the_target(
    before: Members,
    after: Members,
    provider: Seq<char>,
    model: Seq<char>,
) -> bool {
    &&& after.dom() == before.dom()
    &&& before.contains_key("model_provider"@) && before["model_provider"@] is Text
        ==> after["model_provider"@] == JsonTree::Text(provider)
    &&& before.contains_key("model_provider"@) && !(before["model_provider"@] is Text)
        ==> after["model_provider"@] == before["model_provider"@]
    &&& before.contains_key("model"@) && before["model"@] is Text
        && before["model"@]->Text_0.len() > 0 ==> after["model"@] == JsonTree::Text(model)
    &&& before.contains_key("model"@) && !(before["model"@] is Text
        && before["model"@]->Text_0.len() > 0) ==> after["model"@] == before["model"@]
}

proof fn lemma_more_names_differ()
    ensures
        "settings"@ != "model"@,
        "settings"@ != "model_provider"@,
        "session_meta"@ != "turn_context"@,
        "session_meta"@ != "response_item"@,
        "turn_context"@ != "response_item"@,
        "name"@ != "type"@,
        "name"@ != "payload"@,
{
    reveal_strlit("settings");
    reveal_strlit("model");
    reveal_strlit("model_provider");
    reveal_strlit("session_meta");
    reveal_strlit("turn_context");
    reveal_strlit("response_item");
    reveal_strlit("name");
    reveal_strlit("type");
    reveal_strlit("payload");
    assert("settings"@.len() == 8);
    assert("model"@.len() == 5);
    assert("model_provider"@.len() == 14);
    assert("session_meta"@[0] == 's');
    assert("turn_context"@[0] == 't');
    assert("name"@[0] == 'n');
    assert("type"@[0] == 't');
}

/// A metadata row is replaced exactly where one of its fields differs from its target, at the
/// top of its payload or in the collaboration settings, each whatever the others hold.
pub proof fn a_row_is_replaced_where_a_field_differs(
    row: Members,
    p: Members,
    provider: Seq<char>,
    model: Seq<char>,
)
    requires
        row.contains_key("type"@),
        row["type"@] == JsonTree::Text("session_meta"@) || row["type"@] == JsonTree::Text(
            "turn_context"@,
        ),
        row.contains_key("payload"@),
        row["payload"@] == JsonTree::Object(p),
    ensures
        metadata_update(JsonTree::Object(row), provider, model) is Some <==> {
            ||| text_differs(p, "model_provider"@, provider)
            ||| name_differs(p, "model"@, model)
            ||| exists|s: Members| #[trigger]
                holds_settings(p, s) && (text_differs(s, "model_provider"@, provider)
                    || name_differs(s, "model"@, model))
        },
{
    lemma_field_names_differ();
    lemma_more_names_differ();
    assert(JsonTree::Object(row).get("payload"@) == Some(JsonTree::Object(p)));
    if p.contains_key("collaboration_mode"@) && p["collaboration_mode"@] is Object {
        let mode = p["collaboration_mode"@]->Object_0;
        if mode.contains_key("settings"@) && mode["settings"@] is Object {
            assert(holds_settings(p, mode["settings"@]->Object_0));
        }
    }
}

/// A row of any other type is never replaced.
pub proof fn other_rows_are_not_replaced(row: Members, provider: Seq<char>, model: Seq<char>)
    requires
        row.contains_key("type"@) ==> row["type"@] != JsonTree::Text("session_meta"@)
            && row["type"@] != JsonTree::Text("turn_context"@),
    ensures
        metadata_update(JsonTree::Object(row), provider, model) is None,
{
}

/// After an update each field of the payload and of the collaboration settings names its
/// target, whatever the others held, and all else is as it was.
pub proof fn an_updated_row_names_the_target(
    row: Members,
    p: Members,
    provider: Seq<char>,
    model: Seq<char>,
)
    requires
        row.contains_key("payload"@),
        row["payload"@] == JsonTree::Object(p),
    ensures
        ({
            let made = updated_row(JsonTree::Object(row), provider, model);
            let q = made->Object_0["payload"@]->Object_0;
            &&& made is Object
            &&& made->Object_0 == row.insert("payload"@, JsonTree::Object(q))
            &&& names_the_target(p, q, provider, model)
            &&& forall|key: Seq<char>|
                p.contains_key(key) && key != "model"@ && key != "model_provider"@ && key
                    != "collaboration_mode"@ ==> #[trigger] q[key] == p[key]
            &&& forall|s: Members| #[trigger]
                holds_settings(p, s) ==> exists|t: Members| #[trigger]
                    holds_settings(q, t) && names_the_target(s, t, provider, model) && forall|
                        key: Seq<char>,
                    |
                        s.contains_key(key) && key != "model"@ && key != "model_provider"@
                            ==> #[trigger] t[key] == s[key]
            &&& (forall|s: Members| !#[trigger] holds_settings(p, s)) && p.contains_key(
                "collaboration_mode"@,
            ) ==> q["collaboration_mode"@] == p["collaboration_mode"@]
        }),
{
    lemma_field_names_differ();
    lemma_more_names_differ();
    let tree = JsonTree::Object(row);
    assert(tree.get("payload"@) == Some(JsonTree::Object(p)));
    let made = updated_row(tree, provider, model);
    let q = made->Object_0["payload"@]->Object_0;
    assert(q.dom() =~= p.dom());
    if p.contains_key("collaboration_mode"@) && p["collaboration_mode"@] is Object {
        let mode = p["collaboration_mode"@]->Object_0;
        if mode.contains_key("settings"@) && mode["settings"@] is Object {
            let s = mode["settings"@]->Object_0;
            assert(holds_settings(p, s));
            let t = q["collaboration_mode"@]->Object_0["settings"@]->Object_0;
            assert(holds_settings(q, t));
            assert(t.dom() =~= s.dom());
            assert(names_the_target(s, t, provider, model));
        }
    }
}

/// A line that is replaced is replaced by the updated row, whichever of the two types it
/// names.
pub proof fn a_replaced_line_holds_the_updated_row(
    line: Seq<char>,
    row: JsonTree,
    provider: Seq<char>,
    model: Seq<char>,
    at: int,
)
    requires
        json_of_text(line) == Some(row),
        metadata_update(row, provider, model) is Some,
        0 <= at,
        at + 14 <= line.len(),
        line.subrange(at, at + 14) == "\"session_meta\""@ || line.subrange(at, at + 14)
            == "\"turn_context\""@,
    ensures
        line_update(line, provider, model) == Some(json_text(updated_row(row, provider, model))),
{
    reveal_strlit("\"session_meta\"");
    reveal_strlit("\"turn_context\"");
    assert(crate::text::stands_at(line, "\"session_meta\""@, at) || crate::text::stands_at(
        line,
        "\"turn_context\""@,
        at,
    ));
}

/// Only a document that is replaced changes its line.
pub proof fn a_line_changes_only_with_its_row(
    line: Seq<char>,
    provider: Seq<char>,
    model: Seq<char>,
)
    requires
        json_of_text(line) is None || metadata_update(json_of_text(line)->0, provider, model) is None,
    ensures
        line_update(line, provider, model) is None,
{
}

/// A record keeps its line end, whatever becomes of its line.
pub proof fn a_synced_record_keeps_its_line_end(
    line: Seq<char>,
    provider: Seq<char>,
    model: Seq<char>,
)
    requires
        line.len() > 0,
        line.last() != '\n',
        line.last() != '\r',
    ensures
        ({
            let made = match line_update(line, provider, model) {
                Some(updated) => updated,
                None => line,
            };
            &&& synced_record(line, provider, model) == made
            &&& synced_record(line.push('\n'), provider, model) == made.push('\n')
            &&& synced_record(line + seq!['\r', '\n'], provider, model) == made + seq!['\r', '\n']
        }),
{
    let lf = line.push('\n');
    let crlf = line + seq!['\r', '\n'];
    assert(lf.drop_last() =~= line);
    assert(without_line_end(lf) == line);
    assert(crlf.drop_last() =~= line.push('\r'));
    assert(crlf.drop_last().drop_last() =~= line);
    assert(without_line_end(crlf) == line);
    assert(without_line_end(line) == line);
    assert(line.skip(line.len() as int) =~= Seq::<char>::empty());
    assert(lf.skip(line.len() as int) =~= seq!['\n']);
    assert(crlf.skip(line.len() as int) =~= seq!['\r', '\n']);
    match line_update(line, provider, model) {
        Some(made) => {
            assert(made + Seq::<char>::empty() =~= made);
            assert(made + seq!['\n'] =~= made.push('\n'));
        },
        None => {},
    }
}

/// The records are looked at one by one, and each that is replaced is counted.
pub proof fn records_are_synced_one_by_one(
    recs: Seq<Seq<char>>,
    record: Seq<char>,
    provider: Seq<char>,
    model: Seq<char>,
)
    ensures
        synced_records(recs.push(record), provider, model) == synced_records(
            recs,
            provider,
            model,
        ).push(synced_record(record, provider, model)),
        synced_count(recs.push(record), provider, model) == synced_count(recs, provider, model)
            + if line_update(without_line_end(record), provider, model) is Some {
            1nat
        } else {
            0nat
        },
        synced_count(Seq::empty(), provider, model) == 0,
{
    let pred = |r: Seq<char>| line_update(without_line_end(r), provider, model) is Some;
    let all = recs.push(record);
    lemma_filter_step(all, recs.len() as int, pred);
    assert(all.take(recs.len() as int) =~= recs);
    assert(all.take(all.len() as int) =~= all);
    assert(synced_records(all, provider, model) =~= synced_records(recs, provider, model).push(
        synced_record(record, provider, model),
    ));
    reveal_with_fuel(Seq::filter, 1);
}

/// A full rewrite looks at rows of every type: a line is stale exactly where a field of its
/// payload differs from its target, and is written as the updated row.
pub proof fn a_full_rewrite_looks_at_every_row(
    line: Seq<char>,
    row: Members,
    p: Members,
    provider: Seq<char>,
    model: Seq<char>,
)
    requires
        json_of_text(line) == Some(JsonTree::Object(row)),
        row.contains_key("payload"@),
        row["payload"@] == JsonTree::Object(p),
    ensures
        line_stale(line, provider, model) <==> {
            ||| text_differs(p, "model_provider"@, provider)
            ||| name_differs(p, "model"@, model)
            ||| exists|s: Members| #[trigger]
                holds_settings(p, s) && (text_differs(s, "model_provider"@, provider)
                    || name_differs(s, "model"@, model))
        },
        rewritten_line(line, provider, model) == json_text(
            updated_row(JsonTree::Object(row), provider, model),
        ),
{
    lemma_field_names_differ();
    lemma_more_names_differ();
    assert(JsonTree::Object(row).get("payload"@) == Some(JsonTree::Object(p)));
    if p.contains_key("collaboration_mode"@) && p["collaboration_mode"@] is Object {
        let mode = p["collaboration_mode"@]->Object_0;
        if mode.contains_key("settings"@) && mode["settings"@] is Object {
            assert(holds_settings(p, mode["settings"@]->Object_0));
        }
    }
}

/// A document without a payload of members stays as it is.
pub proof fn rows_without_payload_stay(row: JsonTree, provider: Seq<char>, model: Seq<char>)
    requires
        !(row is Object) || !row->Object_0.contains_key("payload"@) || !(
        row->Object_0["payload"@] is Object),
    ensures
        updated_row(row, provider, model) == row,
        metadata_update(row, provider, model) is None,
{
}

/// Each stale line is counted.
pub proof fn stale_lines_are_counted(
    rows: Seq<Seq<char>>,
    line: Seq<char>,
    provider: Seq<char>,
    model: Seq<char>,
)
    ensures
        stale_count(rows.push(line), provider, model) == stale_count(rows, provider, model) + if
            line_stale(line, provider, model) {
            1nat
        } else {
            0nat
        },
        stale_count(Seq::empty(), provider, model) == 0,
{
    let pred = |l: Seq<char>| line_stale(l, provider, model);
    let all = rows.push(line);
    lemma_filter_step(all, rows.len() as int, pred);
    assert(all.take(rows.len() as int) =~= rows);
    assert(all.take(all.len() as int) =~= all);
    reveal_with_fuel(Seq::filter, 1);
}

/// A rebuilt content of several lines is the first line, a line feed, and the content of the
/// others; it ends with a line feed exactly where the old content did.
pub proof fn a_rebuilt_content_ends_as_the_old_one(content: Seq<char>, first: Seq<char>, second: Seq<
    char,
>)
    requires
        content.len() > 0,
    ensures
        content.last() == '\n' ==> rebuilt(content, seq![first]) == first.push('\n'),
        content.last() != '\n' ==> rebuilt(content, seq![first]) == first,
        content.last() == '\n' ==> rebuilt(content, seq![first, second]) == first.push('\n') + second
            .push('\n'),
        content.last() != '\n' ==> rebuilt(content, seq![first, second]) == first.push('\n') + second,
{
    reveal_with_fuel(crate::text::joined, 3);
    let two = seq![first, second];
    assert(two.drop_last() =~= seq![first]);
    assert(two.last() == second);
    if content.last() == '\n' {
        assert(rebuilt(content, seq![first]) =~= first.push('\n'));
        assert(rebuilt(content, two) =~= first.push('\n') + second.push('\n'));
    } else {
        assert(rebuilt(content, seq![first]) =~= first);
        assert(rebuilt(content, two) =~= first.push('\n') + second);
    }
}

// ---------------------------------------------------------------------------
// Repair
// ---------------------------------------------------------------------------

/// A line goes exactly where it is a response item whose payload is marked as a projection.
pub proof fn projections_go(line: Seq<char>, row: Members)
    requires
        json_of_text(line) == Some(JsonTree::Object(row)),
    ensures
        line_repair(line) is None <==> {
            &&& row.contains_key("type"@)
            &&& row["type"@] == JsonTree::Text("response_item"@)
            &&& row.contains_key("payload"@)
            &&& row["payload"@] is Object
            &&& row["payload"@]->Object_0.contains_key("ucp_display_projection"@)
            &&& row["payload"@]->Object_0["ucp_display_projection"@] == JsonTree::Bool(true)
        },
        line_is_projection(line) <==> line_repair(line) is None,
{
}

/// A tool call with a name that holds another character, or nothing, is written with a name
/// that holds none, and with all else as it was.
pub proof fn tool_calls_are_renamed(
    line: Seq<char>,
    row: Members,
    item: Members,
    name: Seq<char>,
)
    requires
        json_of_text(line) == Some(JsonTree::Object(row)),
        line_repair(line) is Some,
        row.contains_key("type"@),
        row["type"@] == JsonTree::Text("response_item"@),
        row.contains_key("payload"@),
        row["payload"@] == JsonTree::Object(item),
        item.contains_key("type"@),
        item["type"@] == JsonTree::Text("function_call"@) || item["type"@] == JsonTree::Text(
            "custom_tool_call"@,
        ),
        item.contains_key("name"@),
        item["name"@] == JsonTree::Text(name),
    ensures
        line_is_misnamed(line) <==> name.len() == 0 || !is_plain_text(name),
        name.len() > 0 && is_plain_text(name) ==> line_repair(line) == Some(line),
        name.len() == 0 || !is_plain_text(name) ==> exists|made: Seq<char>| #[trigger]
            is_plain_text(made) && made.len() > 0 && made == normalized_tool_name(name)
                && line_repair(line) == Some(
                json_text(
                    JsonTree::Object(
                        row.insert(
                            "payload"@,
                            JsonTree::Object(item.insert("name"@, JsonTree::Text(made))),
                        ),
                    ),
                ),
            ),
{
    names_are_judged_by_their_characters(name);
    normalized_names_are_plain(name);
    assert(JsonTree::Object(row).get("payload"@) == Some(JsonTree::Object(item)));
    assert(JsonTree::Object(item).text_at("name"@) == Some(name));
    assert(is_plain_text(normalized_tool_name(name)));
}

/// Whatever is no tool call among response items, and whatever is no document, stays.
pub proof fn other_lines_are_not_repaired(line: Seq<char>)
    requires
        match json_of_text(line) {
            None => true,
            Some(JsonTree::Object(row)) => {
                ||| !row.contains_key("type"@)
                ||| row["type"@] != JsonTree::Text("response_item"@)
                ||| !row.contains_key("payload"@)
                ||| !(row["payload"@] is Object)
                ||| {
                    let item = row["payload"@]->Object_0;
                    &&& item.contains_key("ucp_display_projection"@)
                        ==> item["ucp_display_projection"@] != JsonTree::Bool(true)
                    &&& item.contains_key("type"@) ==> item["type"@] != JsonTree::Text(
                        "function_call"@,
                    ) && item["type"@] != JsonTree::Text("custom_tool_call"@)
                }
            },
            Some(_) => true,
        },
    ensures
        line_repair(line) == Some(line),
        !line_is_misnamed(line),
{
}

/// Lines are repaired one by one, and each repair is counted.
pub proof fn lines_are_repaired_one_by_one(rows: Seq<Seq<char>>, line: Seq<char>)
    ensures
        repaired_lines(rows.push(line)) == (match line_repair(line) {
            Some(made) => repaired_lines(rows).push(made),
            None => repaired_lines(rows),
        }),
        projection_count(rows.push(line)) == projection_count(rows) + if line_is_projection(line) {
            1nat
        } else {
            0nat
        },
        misnamed_count(rows.push(line)) == misnamed_count(rows) + if line_is_misnamed(line) {
            1nat
        } else {
            0nat
        },
        repaired_lines(Seq::empty()) == Seq::<Seq<char>>::empty(),
        projection_count(Seq::empty()) == 0,
        misnamed_count(Seq::empty()) == 0,
{
    let fixed = |l: Seq<char>| line_repair(l);
    let removed = |l: Seq<char>| line_is_projection(l);
    let misnamed = |l: Seq<char>| line_is_misnamed(l);
    let all = rows.push(line);
    lemma_filter_map_step(all, rows.len() as int, fixed);
    lemma_filter_step(all, rows.len() as int, removed);
    lemma_filter_step(all, rows.len() as int, misnamed);
    assert(all.take(rows.len() as int) =~= rows);
    assert(all.take(all.len() as int) =~= all);
    reveal_with_fuel(Seq::filter, 1);
    reveal_with_fuel(Seq::filter_map, 1);
}

// ---------------------------------------------------------------------------
// Threads, files and counts
// ---------------------------------------------------------------------------

/// A thread row is changed exactly where it names another provider, or none, or another
/// model. It then names the target provider, and the target model where it named a model.
pub proof fn a_thread_row_follows_the_target(
    provider: Option<Seq<char>>,
    model: Option<Seq<char>>,
    target_provider: Seq<char>,
    target_model: Seq<char>,
)
    ensures
        ({
            let made = thread_repair(provider, model, target_provider, target_model);
            &&& provider is None ==> made is Some
            &&& provider is Some && provider->0 != target_provider ==> made is Some
            &&& model is Some && model->0.len() > 0 && model->0 != target_model ==> made is Some
            &&& provider == Some(target_provider) && (model is None || model->0.len() == 0
                || model->0 == target_model) ==> made is None
            &&& made is Some ==> (made->0).0 == target_provider
            &&& made is Some && model is Some && model->0.len() > 0 ==> (made->0).1 == Some(target_model)
            &&& made is Some && (model is None || model->0.len() == 0) ==> (made->0).1 == model
        }),
{
}

/// A rollout file is named `rollout-`, then anything, then `.jsonl`.
pub proof fn rollout_files_are_named_so(middle: Seq<char>, name: Seq<char>)
    ensures
        rollout_name("rollout-"@ + middle + ".jsonl"@),
        rollout_name(name) ==> name.len() >= 8 && name.take(8) == "rollout-"@ && name.skip(
            name.len() - 6,
        ) == ".jsonl"@,
{
    reveal_strlit("rollout-");
    reveal_strlit(".jsonl");
    let made = "rollout-"@ + middle + ".jsonl"@;
    assert(made.subrange(0, 8) =~= "rollout-"@);
    assert(made.subrange(made.len() - 6, made.len() as int) =~= ".jsonl"@);
    if rollout_name(name) {
        assert(name.take(8) =~= "rollout-"@);
        assert(name.skip(name.len() - 6) =~= ".jsonl"@);
    }
}

/// Whether a text is made of letters of ASCII.
pub open spec fn is_tag(s: Seq<char>) -> bool {
    forall|i: int| 0 <= i < s.len() ==> 'a' <= #[trigger] s[i] <= 'z' || 'A' <= s[i] <= 'Z'
}

proof fn lemma_letters_before(tag: Seq<char>, rest: Seq<char>)
    requires
        is_tag(tag),
        rest.len() > 0 ==> !('a' <= rest[0] <= 'z' || 'A' <= rest[0] <= 'Z'),
    ensures
        letters_before(tag + rest) == tag.len(),
    decreases tag.len(),
{
    let s = tag + rest;
    if tag.len() > 0 {
        assert(s[0] == tag[0]);
        let fewer = tag.drop_first();
        assert forall|i: int| 0 <= i < fewer.len() implies 'a' <= #[trigger] fewer[i] <= 'z' || 'A'
            <= fewer[i] <= 'Z' by {
            assert(fewer[i] == tag[i + 1]);
        }
        lemma_letters_before(fewer, rest);
        assert(s.drop_first() =~= fewer + rest);
    } else {
        assert(s =~= rest);
    }
}

/// The time of a backup is what follows the common beginning, with or without a tag of
/// letters; so backups of all kinds are ordered by their times alone.
pub proof fn the_time_of_a_backup_is_read_from_its_name(
    tag: Seq<char>,
    time: Seq<char>,
    other_tag: Seq<char>,
    other_time: Seq<char>,
)
    requires
        is_tag(tag),
        is_tag(other_tag),
        tag.len() > 0,
        other_tag.len() > 0,
        time.len() > 0 && '0' <= time[0] <= '9',
        other_time.len() > 0 && '0' <= other_time[0] <= '9',
    ensures
        backup_name(".sessions_backup_"@ + time),
        backup_name(".sessions_backup_"@ + tag + seq!['_'] + time),
        backup_time(".sessions_backup_"@ + time) == time,
        backup_time(".sessions_backup_"@ + tag + seq!['_'] + time) == time,
        text_before(
            backup_time(".sessions_backup_"@ + tag + seq!['_'] + time),
            backup_time(".sessions_backup_"@ + other_tag + seq!['_'] + other_time),
        ) == text_before(time, other_time),
{
    let begin = ".sessions_backup_"@;
    lemma_backup_time(tag, time);
    lemma_backup_time(other_tag, other_time);
    let plain = begin + time;
    assert(plain.subrange(0, begin.len() as int) =~= begin);
    assert(plain.skip(begin.len() as int) =~= time);
    assert(Seq::<char>::empty() + time =~= time);
    lemma_letters_before(Seq::empty(), time);
}

proof fn lemma_backup_time(tag: Seq<char>, time: Seq<char>)
    requires
        is_tag(tag),
        tag.len() > 0,
        time.len() > 0,
    ensures
        backup_name(".sessions_backup_"@ + tag + seq!['_'] + time),
        backup_time(".sessions_backup_"@ + tag + seq!['_'] + time) == time,
{
    let begin = ".sessions_backup_"@;
    let name = begin + tag + seq!['_'] + time;
    let rest = tag + (seq!['_'] + time);
    assert(name.subrange(0, begin.len() as int) =~= begin);
    assert(name.skip(begin.len() as int) =~= rest);
    assert((seq!['_'] + time)[0] == '_');
    lemma_letters_before(tag, seq!['_'] + time);
    assert(rest[tag.len() as int] == '_');
    assert(rest.skip(tag.len() as int + 1) =~= time);
}

/// What became of one more rollout is counted once, as what it is.
pub proof fn outcomes_are_counted_once(outcomes: Seq<RolloutOutcome>, outcome: RolloutOutcome)
    ensures
        ({
            let all = outcomes.push(outcome);
            &&& outcome matches RolloutOutcome::Modified(n) ==> {
                &&& modified_count(all) == modified_count(outcomes) + 1
                &&& skipped_count(all) == skipped_count(outcomes)
                &&& failed_count(all) == failed_count(outcomes)
                &&& all_lines_updated(all) == all_lines_updated(outcomes) + n
            }
            &&& outcome is Skipped ==> {
                &&& modified_count(all) == modified_count(outcomes)
                &&& skipped_count(all) == skipped_count(outcomes) + 1
                &&& failed_count(all) == failed_count(outcomes)
                &&& all_lines_updated(all) == all_lines_updated(outcomes)
            }
            &&& outcome is Failed ==> {
                &&& modified_count(all) == modified_count(outcomes)
                &&& skipped_count(all) == skipped_count(outcomes)
                &&& failed_count(all) == failed_count(outcomes) + 1
                &&& all_lines_updated(all) == all_lines_updated(outcomes)
            }
        }),
        modified_count(Seq::empty()) == 0,
        skipped_count(Seq::empty()) == 0,
        failed_count(Seq::empty()) == 0,
        all_lines_updated(Seq::empty()) == 0,
{
    let all = outcomes.push(outcome);
    let n = outcomes.len() as int;
    lemma_filter_step(all, n, |o: RolloutOutcome| o is Modified);
    lemma_filter_step(all, n, |o: RolloutOutcome| o is Skipped);
    lemma_filter_step(all, n, |o: RolloutOutcome| o is Failed);
    lemma_total_step(all, n, |o: RolloutOutcome| crate::sessions::lines_updated(o));
    assert(all.take(n) =~= outcomes);
    assert(all.take(all.len() as int) =~= all);
    reveal_with_fuel(Seq::filter, 1);
}

/// One more database adds what its update did, or one error where it failed.
pub proof fn databases_are_summed_up(
    outcomes: Seq<Option<DbUpdateSummary>>,
    outcome: Option<DbUpdateSummary>,
)
    ensures
        ({
            let all = outcomes.push(outcome);
            &&& outcome matches Some(done) ==> {
                &&& db_records(all) == db_records(outcomes) + done.records_updated
                &&& db_backups(all) == db_backups(outcomes) + done.backup_files
                &&& db_failures(all) == db_failures(outcomes) + done.errors
            }
            &&& outcome is None ==> {
                &&& db_records(all) == db_records(outcomes)
                &&& db_backups(all) == db_backups(outcomes)
                &&& db_failures(all) == db_failures(outcomes) + 1
            }
        }),
        db_records(Seq::empty()) == 0,
        db_backups(Seq::empty()) == 0,
        db_failures(Seq::empty()) == 0,
{
    let all = outcomes.push(outcome);
    let n = outcomes.len() as int;
    lemma_total_step(all, n, |o: Option<DbUpdateSummary>| crate::sessions::records_in(o));
    lemma_total_step(all, n, |o: Option<DbUpdateSummary>| crate::sessions::backups_in(o));
    lemma_total_step(all, n, |o: Option<DbUpdateSummary>| crate::sessions::errors_in(o));
    assert(all.take(n) =~= outcomes);
    assert(all.take(all.len() as int) =~= all);
}

/// One more rollout adds what its repair found.
pub proof fn repairs_are_summed_up(
    outcomes: Seq<Option<RolloutRepair>>,
    outcome: Option<RolloutRepair>,
)
    ensures
        ({
            let all = outcomes.push(outcome);
            &&& outcome matches Some(repair) ==> {
                &&& projections_in(all) == projections_in(outcomes) + repair.projection_rows_removed
                &&& invalid_names_in(all) == invalid_names_in(outcomes)
                    + repair.invalid_names_normalized
                &&& crate::sessions::unrepaired_count(all) == crate::sessions::unrepaired_count(
                    outcomes,
                )
                &&& crate::sessions::affected_count(all) == crate::sessions::affected_count(
                    outcomes,
                ) + if repair.content is Some {
                    1nat
                } else {
                    0nat
                }
            }
            &&& outcome is None ==> {
                &&& projections_in(all) == projections_in(outcomes)
                &&& invalid_names_in(all) == invalid_names_in(outcomes)
                &&& crate::sessions::unrepaired_count(all) == crate::sessions::unrepaired_count(
                    outcomes,
                ) + 1
                &&& crate::sessions::affected_count(all) == crate::sessions::affected_count(outcomes)
            }
        }),
{
    let all = outcomes.push(outcome);
    let n = outcomes.len() as int;
    let removed = |o: Option<RolloutRepair>|
        match o {
            Some(repair) => repair.projection_rows_removed as nat,
            None => 0nat,
        };
    let named = |o: Option<RolloutRepair>|
        match o {
            Some(repair) => repair.invalid_names_normalized as nat,
            None => 0nat,
        };
    lemma_total_step(all, n, removed);
    lemma_total_step(all, n, named);
    lemma_filter_step(all, n, |o: Option<RolloutRepair>| o is None);
    lemma_filter_step(all, n, |o: Option<RolloutRepair>| crate::sessions::needs_repair(o));
    assert(all.take(n) =~= outcomes);
    assert(all.take(all.len() as int) =~= all);
    assert(projections_in(all) == total_of(all, removed));
    assert(projections_in(outcomes) == total_of(outcomes, removed));
    assert(invalid_names_in(all) == total_of(all, named));
    assert(invalid_names_in(outcomes) == total_of(outcomes, named));
}

spec fn total_of(
    outcomes: Seq<Option<RolloutRepair>>,
    count: spec_fn(Option<RolloutRepair>) -> nat,
) -> nat {
    crate::lists::total(outcomes, count)
}

/// An updated payload has the members that it had, and so has its collaboration mode, of which
/// only the settings change.
pub proof fn an_updated_payload_has_the_same_members(
    row: Members,
    p: Members,
    provider: Seq<char>,
    model: Seq<char>,
    key: Seq<char>,
)
    requires
        row.contains_key("payload"@),
        row["payload"@] == JsonTree::Object(p),
    ensures
        ({
            let made = updated_row(JsonTree::Object(row), provider, model);
            let q = made->Object_0["payload"@]->Object_0;
            let old_mode = p["collaboration_mode"@]->Object_0;
            let new_mode = q["collaboration_mode"@]->Object_0;
            &&& q.contains_key(key) <==> p.contains_key(key)
            &&& p.contains_key("collaboration_mode"@) && p["collaboration_mode"@] is Object
                ==> q["collaboration_mode"@] is Object && (new_mode.contains_key(key)
                <==> old_mode.contains_key(key))
            &&& p.contains_key("collaboration_mode"@) && p["collaboration_mode"@] is Object
                && old_mode.contains_key(key) && key != "settings"@ ==> new_mode[key]
                == old_mode[key]
        }),
{
    lemma_field_names_differ();
    lemma_more_names_differ();
    let tree = JsonTree::Object(row);
    assert(tree.get("payload"@) == Some(JsonTree::Object(p)));
    let q = updated_row(tree, provider, model)->Object_0["payload"@]->Object_0;
    assert(q.dom() =~= p.dom());
}

/// The rows that can be read are those before the first one that is no document.
pub proof fn rows_are_read_up_to_the_first_unreadable_one(rows: Seq<Seq<char>>)
    ensures
        readable_rows(rows) <= rows.len(),
        forall|i: int| 0 <= i < readable_rows(rows) ==> json_of_text(#[trigger] rows[i]) is Some,
        readable_rows(rows) < rows.len() ==> json_of_text(rows[readable_rows(rows) as int]) is None,
    decreases rows.len(),
{
    if rows.len() > 0 && json_of_text(rows[0]) is Some {
        let rest = rows.drop_first();
        rows_are_read_up_to_the_first_unreadable_one(rest);
        assert forall|i: int| 0 <= i < readable_rows(rows) implies json_of_text(
            #[trigger] rows[i],
        ) is Some by {
            if i > 0 {
                assert(rest[i - 1] == rows[i]);
            }
        }
    }
}

} // verus!
