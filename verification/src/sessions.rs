//! Rollout rewriting: keeping the provider and model that historical sessions name in step
//! with the active profile, and repairing rows that stricter validation rejects.
use vstd::prelude::*;

use crate::json::{parse, Json, JsonObject};
use crate::json::{alike, json_of_text, json_text, lemma_alike_members, opt_tree, JsonTree};
use crate::history::HistoryIndexSummary;
use crate::lists::{
    lemma_filter_map_step, lemma_filter_step, lemma_no_items, lemma_total_step, total,
};
use crate::order::{
    is_before, lemma_not_after_is_transitive, sort, sorted, sorting_orders_and_keeps, text_before,
    text_order_is_total, Ranked,
};
use crate::text::{
    chars_of, contains, copy_option, ends_with, join, line_of, lines, records, same_text, starts_with,
    strip_prefix, text_of, trim, CharClass,
};
use crate::text::{
    concat, contains_text, is_line, is_record, joined, joined_lines_nearly_read_back,
    joined_lines_read_back, lemma_lines, lemma_records, lemma_trim_back_is_prefix,
    lemma_trim_front_is_suffix, lines_of, opt_view, records_of, records_read_back, text_of_lines,
    trim_back, trim_front, trimmed, views, without_line_end, without_prefix, without_return,
};

verus! {

// ---------------------------------------------------------------------------
// Tool names
// ---------------------------------------------------------------------------

/// Whether a character may stand in a tool name: a letter or digit of ASCII, `_` or `-`.
pub open spec fn tool_char(c: char) -> bool {
    ('a' <= c && c <= 'z') || ('A' <= c && c <= 'Z') || ('0' <= c && c <= '9') || c == '_' || c
        == '-'
}

/// Whether a text is a valid tool name: not empty, and of tool characters only.
pub open spec fn valid_tool_name(name: Seq<char>) -> bool {
    name.len() > 0 && forall|i: int| 0 <= i < name.len() ==> tool_char(#[trigger] name[i])
}

/// A text with each run of other characters turned into one underscore.
pub open spec fn collapsed(name: Seq<char>) -> Seq<char>
    decreases name.len(),
{
    if name.len() == 0 {
        Seq::empty()
    } else if tool_char(name.last()) {
        collapsed(name.drop_last()).push(name.last())
    } else if name.len() > 1 && !tool_char(name[name.len() - 2]) {
        collapsed(name.drop_last())
    } else {
        collapsed(name.drop_last()).push('_')
    }
}

/// The tool name that stands for a text: collapsed, without outer underscores, and a fixed
/// name where nothing is left.
pub open spec fn normalized_tool_name(name: Seq<char>) -> Seq<char> {
    let core = trimmed(collapsed(name), CharClass::Underscore);
    if core.len() == 0 {
        "legacy_tool"@
    } else {
        core
    }
}

fn is_tool_char(c: char) -> (r: bool)
    ensures
        r == tool_char(c),
{
    ('a' <= c && c <= 'z') || ('A' <= c && c <= 'Z') || ('0' <= c && c <= '9') || c == '_' || c
        == '-'
}

/// Whether a name is a valid tool name.
pub fn is_valid_tool_name(name: &str) -> (r: bool)
    ensures
        r == valid_tool_name(name@),
{
    let chars = chars_of(name);
    if chars.len() == 0 {
        return false;
    }
    let mut i: usize = 0;
    while i < chars.len()
        invariant
            chars@ == name@,
            i <= chars@.len(),
            forall|j: int| 0 <= j < i ==> tool_char(#[trigger] chars@[j]),
        decreases chars@.len() - i,
    {
        if !is_tool_char(chars[i]) {
            return false;
        }
        i += 1;
    }
    true
}

/// The valid tool name that stands for a name.
pub fn normalize_tool_name(name: &str) -> (r: String)
    ensures
        r@ == normalized_tool_name(name@),
        valid_tool_name(r@),
{
    let chars = chars_of(name);
    let mut out = String::new();
    let mut last_was_separator = false;
    let mut i: usize = 0;
    while i < chars.len()
        invariant
            chars@ == name@,
            i <= chars@.len(),
            out@ == collapsed(chars@.take(i as int)),
            last_was_separator == (i > 0 && !tool_char(chars@[i - 1])),
        decreases chars@.len() - i,
    {
        let c = chars[i];
        proof {
            let next = chars@.take(i + 1);
            assert(next.drop_last() =~= chars@.take(i as int));
            assert(next.last() == c);
        }
        if is_tool_char(c) {
            out.push(c);
            last_was_separator = false;
        } else if !last_was_separator {
            out.push('_');
            last_was_separator = true;
        }
        i += 1;
    }
    proof {
        assert(chars@.take(chars@.len() as int) =~= chars@);
        normalized_names_are_valid(name@);
    }
    let core = trim(out.as_str(), CharClass::Underscore);
    if core.as_str().is_empty() {
        "legacy_tool".to_owned()
    } else {
        core
    }
}

proof fn lemma_collapsed_is_clean(name: Seq<char>)
    ensures
        forall|i: int| 0 <= i < collapsed(name).len() ==> tool_char(#[trigger] collapsed(name)[i]),
    decreases name.len(),
{
    if name.len() > 0 {
        let shorter = collapsed(name.drop_last());
        lemma_collapsed_is_clean(name.drop_last());
        assert forall|i: int| 0 <= i < collapsed(name).len() implies tool_char(
            #[trigger] collapsed(name)[i],
        ) by {
            if i < shorter.len() {
                assert(collapsed(name)[i] == shorter[i]);
            }
        }
    }
}

proof fn lemma_trim_keeps_clean(s: Seq<char>, class: CharClass)
    requires
        forall|i: int| 0 <= i < s.len() ==> tool_char(#[trigger] s[i]),
    ensures
        forall|i: int|
            0 <= i < trim_back(s, class).len() ==> tool_char(#[trigger] trim_back(s, class)[i]),
        forall|i: int|
            0 <= i < trim_front(s, class).len() ==> tool_char(#[trigger] trim_front(s, class)[i]),
{
    lemma_trim_back_is_prefix(s, class);
    lemma_trim_front_is_suffix(s, class);
    let front = trim_front(s, class);
    assert forall|i: int| 0 <= i < front.len() implies tool_char(#[trigger] front[i]) by {
        assert(front[i] == s[s.len() - front.len() + i]);
    }
}

/// Normalizing any text gives a name that validation accepts.
pub proof fn normalized_names_are_valid(name: Seq<char>)
    ensures
        valid_tool_name(normalized_tool_name(name)),
{
    reveal_strlit("legacy_tool");
    lemma_collapsed_is_clean(name);
    lemma_trim_keeps_clean(collapsed(name), CharClass::Underscore);
    lemma_trim_keeps_clean(
        trim_front(collapsed(name), CharClass::Underscore),
        CharClass::Underscore,
    );
}

/// A valid name with no underscore at its ends is its own normal form.
pub proof fn valid_names_without_outer_underscores_are_kept(name: Seq<char>)
    requires
        valid_tool_name(name),
        name[0] != '_',
        name.last() != '_',
    ensures
        normalized_tool_name(name) == name,
{
    lemma_collapsed_keeps_valid(name);
}

proof fn lemma_collapsed_keeps_valid(name: Seq<char>)
    requires
        forall|i: int| 0 <= i < name.len() ==> tool_char(#[trigger] name[i]),
    ensures
        collapsed(name) == name,
    decreases name.len(),
{
    if name.len() > 0 {
        lemma_collapsed_keeps_valid(name.drop_last());
        assert(name.drop_last().push(name.last()) =~= name);
    } else {
        assert(collapsed(name) =~= name);
    }
}

// ---------------------------------------------------------------------------
// Provider and model fields
// ---------------------------------------------------------------------------

/// The members of an object by key.
pub type Members = Map<Seq<char>, JsonTree>;

/// Whether a field names something else than the target.
pub open spec fn names_other(field: Option<Seq<char>>, target: Seq<char>) -> bool {
    field is Some && field->0 != target
}

/// Whether a field names a model, and another one than the target.
pub open spec fn names_other_model(field: Option<Seq<char>>, target: Seq<char>) -> bool {
    field is Some && field->0.len() > 0 && field->0 != target
}

/// Whether the provider or model fields of an object differ from the target.
pub open spec fn fields_stale(m: Members, provider: Seq<char>, model: Seq<char>) -> bool {
    names_other(JsonTree::Object(m).text_at("model_provider"@), provider) || names_other_model(
        JsonTree::Object(m).text_at("model"@),
        model,
    )
}

/// The members of `collaboration_mode.settings`, where there are any.
pub open spec fn settings_of(m: Members) -> Option<Members> {
    match JsonTree::Object(m).get_in("collaboration_mode"@, "settings"@) {
        Some(t) => t.members(),
        None => None,
    }
}

/// Whether a payload names another provider or model than the target, at its top or in its
/// collaboration settings.
pub open spec fn members_stale(m: Members, provider: Seq<char>, model: Seq<char>) -> bool {
    fields_stale(m, provider, model) || (settings_of(m) is Some && fields_stale(
        settings_of(m)->0,
        provider,
        model,
    ))
}

/// The members of the payload of a row, where it has an object as payload.
pub open spec fn payload_of(row: JsonTree) -> Option<Members> {
    match row.get("payload"@) {
        Some(t) => t.members(),
        None => None,
    }
}

/// Whether the payload of a row names another provider or model than the target.
pub open spec fn payload_stale(row: JsonTree, provider: Seq<char>, model: Seq<char>) -> bool {
    payload_of(row) is Some && members_stale(payload_of(row)->0, provider, model)
}

/// The object with its provider and model fields set to the target, where it has them.
pub open spec fn updated_fields(m: Members, provider: Seq<char>, model: Seq<char>) -> Members {
    let with_provider = if JsonTree::Object(m).text_at("model_provider"@) is Some {
        m.insert("model_provider"@, JsonTree::Text(provider))
    } else {
        m
    };
    let old_model = JsonTree::Object(m).text_at("model"@);
    if old_model is Some && old_model->0.len() > 0 {
        with_provider.insert("model"@, JsonTree::Text(model))
    } else {
        with_provider
    }
}

/// The payload with its provider and model fields set to the target, at its top and in its
/// collaboration settings.
pub open spec fn updated_members(m: Members, provider: Seq<char>, model: Seq<char>) -> Members {
    let top = updated_fields(m, provider, model);
    if settings_of(m) is Some {
        let settings = updated_fields(settings_of(m)->0, provider, model);
        let mode = m["collaboration_mode"@]->Object_0.insert("settings"@, JsonTree::Object(settings));
        top.insert("collaboration_mode"@, JsonTree::Object(mode))
    } else {
        top
    }
}

/// The row with another payload.
pub open spec fn with_payload(row: JsonTree, payload: Members) -> JsonTree {
    JsonTree::Object(row->Object_0.insert("payload"@, JsonTree::Object(payload)))
}

/// The row with the provider and model fields of its payload set to the target.
pub open spec fn updated_row(row: JsonTree, provider: Seq<char>, model: Seq<char>) -> JsonTree {
    match payload_of(row) {
        Some(m) => with_payload(row, updated_members(m, provider, model)),
        None => row,
    }
}

pub proof fn lemma_field_names_differ()
    ensures
        "model"@ != "model_provider"@,
        "model"@ != "collaboration_mode"@,
        "model_provider"@ != "collaboration_mode"@,
        "type"@ != "payload"@,
{
    reveal_strlit("model");
    reveal_strlit("model_provider");
    reveal_strlit("collaboration_mode");
    reveal_strlit("type");
    reveal_strlit("payload");
    assert("model"@.len() == 5);
    assert("model_provider"@.len() == 14);
    assert("collaboration_mode"@.len() == 18);
    assert("type"@.len() == 4);
    assert("payload"@.len() == 7);
}

proof fn lemma_fields_settle(m: Members, provider: Seq<char>, model: Seq<char>)
    ensures
        !fields_stale(updated_fields(m, provider, model), provider, model),
{
    lemma_field_names_differ();
}

/// After an update no field of the payload names another provider or model.
pub proof fn an_update_settles_the_payload(row: JsonTree, provider: Seq<char>, model: Seq<char>)
    ensures
        !payload_stale(updated_row(row, provider, model), provider, model),
{
    lemma_field_names_differ();
    if payload_of(row) is Some {
        let m = payload_of(row)->0;
        let after = updated_members(m, provider, model);
        assert(payload_of(updated_row(row, provider, model)) == Some(after));
        lemma_fields_settle(m, provider, model);
        let top = updated_fields(m, provider, model);
        if settings_of(m) is Some {
            lemma_fields_settle(settings_of(m)->0, provider, model);
            assert(settings_of(after) == Some(
                updated_fields(settings_of(m)->0, provider, model),
            ));
        } else {
            assert(JsonTree::Object(top).get("collaboration_mode"@) == JsonTree::Object(m).get(
                "collaboration_mode"@,
            ));
            assert(settings_of(after) is None);
        }
        assert(JsonTree::Object(after).text_at("model"@) == JsonTree::Object(top).text_at("model"@));
        assert(JsonTree::Object(after).text_at("model_provider"@) == JsonTree::Object(top).text_at(
            "model_provider"@,
        ));
    }
}

proof fn lemma_settled_fields_stay(m: Members, provider: Seq<char>, model: Seq<char>)
    requires
        !fields_stale(m, provider, model),
    ensures
        updated_fields(m, provider, model) == m,
{
    lemma_field_names_differ();
    assert(updated_fields(m, provider, model) =~= m);
}

/// An update changes nothing where the payload already names the target.
pub proof fn an_update_keeps_a_settled_row(row: JsonTree, provider: Seq<char>, model: Seq<char>)
    requires
        !payload_stale(row, provider, model),
    ensures
        updated_row(row, provider, model) == row,
{
    if payload_of(row) is Some {
        let m = payload_of(row)->0;
        lemma_settled_fields_stay(m, provider, model);
        if settings_of(m) is Some {
            lemma_settled_fields_stay(settings_of(m)->0, provider, model);
            let mode = m["collaboration_mode"@]->Object_0;
            assert(mode.insert("settings"@, JsonTree::Object(settings_of(m)->0)) =~= mode);
            assert(m.insert("collaboration_mode"@, JsonTree::Object(mode)) =~= m);
        }
        assert(updated_members(m, provider, model) == m);
        assert(row->Object_0.insert("payload"@, JsonTree::Object(m)) =~= row->Object_0);
    }
}

/// An update touches nothing outside the provider and model fields and the collaboration
/// settings of the payload.
pub proof fn an_update_keeps_all_else(
    row: JsonTree,
    provider: Seq<char>,
    model: Seq<char>,
    key: Seq<char>,
)
    requires
        key != "model"@,
        key != "model_provider"@,
        key != "collaboration_mode"@,
    ensures
        updated_row(row, provider, model).get_in("payload"@, key) == row.get_in("payload"@, key),
        forall|k: Seq<char>|
            k != "payload"@ ==> #[trigger] updated_row(row, provider, model).get(k) == row.get(k),
{
    lemma_field_names_differ();
    if payload_of(row) is Some {
        let m = payload_of(row)->0;
        let after = updated_members(m, provider, model);
        let top = updated_fields(m, provider, model);
        assert(JsonTree::Object(top).get(key) == JsonTree::Object(m).get(key));
        assert(JsonTree::Object(after).get(key) == JsonTree::Object(top).get(key));
        assert(updated_row(row, provider, model).get("payload"@) == Some(JsonTree::Object(after)));
        assert(row.get("payload"@) == Some(JsonTree::Object(m)));
    }
}

fn object_fields_stale(o: &JsonObject, provider: &str, model: &str) -> (r: bool)
    ensures
        r == fields_stale(o@, provider@, model@),
{
    if let Some(Json::Text(found)) = o.get("model_provider") {
        if !same_text(found.as_str(), provider) {
            return true;
        }
    }
    if let Some(Json::Text(found)) = o.get("model") {
        if !found.as_str().is_empty() && !same_text(found.as_str(), model) {
            return true;
        }
    }
    false
}

fn object_stale(o: &JsonObject, provider: &str, model: &str) -> (r: bool)
    ensures
        r == members_stale(o@, provider@, model@),
{
    if object_fields_stale(o, provider, model) {
        return true;
    }
    if let Some(mode) = o.get("collaboration_mode") {
        if let Some(Json::Object(settings)) = mode.get("settings") {
            return object_fields_stale(settings, provider, model);
        }
    }
    false
}

/// Whether the payload of a row names another provider or model than the target.
pub fn payload_needs_update(row: &Json, provider: &str, model: &str) -> (r: bool)
    ensures
        r == payload_stale(row@, provider@, model@),
{
    match row.get("payload") {
        Some(Json::Object(o)) => object_stale(o, provider, model),
        _ => false,
    }
}

fn update_fields(o: &mut JsonObject, provider: &str, model: &str)
    ensures
        final(o)@ == updated_fields(old(o)@, provider@, model@),
{
    proof {
        lemma_field_names_differ();
    }
    let has_provider = match o.get("model_provider") {
        Some(Json::Text(_)) => true,
        _ => false,
    };
    let has_model = match o.get("model") {
        Some(Json::Text(found)) => !found.as_str().is_empty(),
        _ => false,
    };
    if has_provider {
        o.insert("model_provider".to_owned(), Json::text(provider));
    }
    if has_model {
        o.insert("model".to_owned(), Json::text(model));
    }
}

/// Sets the provider and model fields of a payload to the target, where it has them.
pub fn update_payload(payload: &mut JsonObject, provider: &str, model: &str)
    ensures
        final(payload)@ == updated_members(old(payload)@, provider@, model@),
{
    proof {
        lemma_field_names_differ();
    }
    let ghost m = payload@;
    update_fields(payload, provider, model);
    let ghost top = payload@;
    let taken = payload.take("collaboration_mode");
    match taken {
        Some(Json::Object(mode)) => {
            let mut mode = mode;
            let ghost mode_members = mode@;
            match mode.take("settings") {
                Some(Json::Object(settings)) => {
                    let mut settings = settings;
                    update_fields(&mut settings, provider, model);
                    let ghost updated = settings@;
                    mode.insert("settings".to_owned(), Json::Object(settings));
                    proof {
                        assert(mode@ =~= mode_members.insert("settings"@, JsonTree::Object(updated)));
                    }
                },
                Some(other) => {
                    mode.insert("settings".to_owned(), other);
                    proof {
                        assert(mode@ =~= mode_members);
                    }
                },
                None => {
                    proof {
                        assert(mode@ =~= mode_members);
                    }
                },
            }
            let ghost final_mode = mode@;
            payload.insert("collaboration_mode".to_owned(), Json::Object(mode));
            proof {
                assert(payload@ =~= top.insert("collaboration_mode"@, JsonTree::Object(final_mode)));
                if settings_of(m) is None {
                    assert(top.insert("collaboration_mode"@, JsonTree::Object(final_mode)) =~= top);
                }
            }
        },
        Some(other) => {
            payload.insert("collaboration_mode".to_owned(), other);
            proof {
                assert(payload@ =~= top);
            }
        },
        None => {
            proof {
                assert(payload@ =~= top);
            }
        },
    }
}

/// Sets the provider and model fields of the payload of a row to the target.
pub fn update_row(row: Json, provider: &str, model: &str) -> (r: Json)
    ensures
        r@ == updated_row(row@, provider@, model@),
{
    match row {
        Json::Object(members) => {
            let mut members = members;
            let ghost whole = members@;
            match members.take("payload") {
                Some(Json::Object(payload)) => {
                    let mut payload = payload;
                    update_payload(&mut payload, provider, model);
                    let ghost updated = payload@;
                    members.insert("payload".to_owned(), Json::Object(payload));
                    proof {
                        assert(members@ =~= whole.insert("payload"@, JsonTree::Object(updated)));
                    }
                },
                Some(other) => {
                    members.insert("payload".to_owned(), other);
                    proof {
                        assert(members@ =~= whole);
                    }
                },
                None => {
                    proof {
                        assert(members@ =~= whole);
                    }
                },
            }
            Json::Object(members)
        },
        other => other,
    }
}

// ---------------------------------------------------------------------------
// Metadata rows
// ---------------------------------------------------------------------------

/// Whether a row is one of session metadata: its type carries the provider or the model.
pub open spec fn is_metadata(row: JsonTree) -> bool {
    row.text_at("type"@) == Some("session_meta"@) || row.text_at("type"@) == Some("turn_context"@)
}

/// The row that replaces a metadata row which names another provider or model.
pub open spec fn metadata_update(row: JsonTree, provider: Seq<char>, model: Seq<char>) -> Option<
    JsonTree,
> {
    if is_metadata(row) && payload_stale(row, provider, model) {
        Some(updated_row(row, provider, model))
    } else {
        None
    }
}

/// The line that replaces a line, where it is a metadata row which names another provider or
/// model and which names its type in plain letters.
pub open spec fn line_update(line: Seq<char>, provider: Seq<char>, model: Seq<char>) -> Option<
    Seq<char>,
> {
    if !contains_text(line, "\"session_meta\""@) && !contains_text(line, "\"turn_context\""@) {
        None
    } else {
        match json_of_text(line) {
            Some(row) => match metadata_update(row, provider, model) {
                Some(updated) => Some(json_text(updated)),
                None => None,
            },
            None => None,
        }
    }
}

/// The line end of a record.
pub open spec fn record_end(record: Seq<char>) -> Seq<char> {
    record.skip(without_line_end(record).len() as int)
}

/// A record after a metadata sync, with the line end that it had.
pub open spec fn synced_record(record: Seq<char>, provider: Seq<char>, model: Seq<char>) -> Seq<
    char,
> {
    match line_update(without_line_end(record), provider, model) {
        Some(updated) => updated + record_end(record),
        None => record,
    }
}

/// The records after a metadata sync, one for one.
pub open spec fn synced_records(
    recs: Seq<Seq<char>>,
    provider: Seq<char>,
    model: Seq<char>,
) -> Seq<Seq<char>> {
    recs.map_values(|record: Seq<char>| synced_record(record, provider, model))
}

/// How many records a metadata sync replaces.
pub open spec fn synced_count(
    recs: Seq<Seq<char>>,
    provider: Seq<char>,
    model: Seq<char>,
) -> nat {
    recs.filter(
        |record: Seq<char>| line_update(without_line_end(record), provider, model) is Some,
    ).len()
}

/// The content with other lines: joined with line feeds, and with one at the end where the
/// old content had one.
pub open spec fn rebuilt(content: Seq<char>, rows: Seq<Seq<char>>) -> Seq<char> {
    joined(rows, seq!['\n']) + if content.len() > 0 && content.last() == '\n' {
        seq!['\n']
    } else {
        Seq::<char>::empty()
    }
}

/// What a rewrite makes of a rollout file.
#[derive(Debug, PartialEq, Eq)]
pub struct RolloutRewrite {
    pub content: String,
    pub lines_updated: usize,
}

proof fn lemma_alike_rows_are_stale_alike(
    a: JsonTree,
    b: JsonTree,
    provider: Seq<char>,
    model: Seq<char>,
)
    requires
        alike(a, b),
    ensures
        payload_stale(a, provider, model) == payload_stale(b, provider, model),
{
    lemma_alike_members(a, b, "payload"@);
    if payload_of(a) is Some {
        let pa = a.get("payload"@)->0;
        let pb = b.get("payload"@)->0;
        lemma_alike_members(pa, pb, "model_provider"@);
        lemma_alike_members(pa, pb, "model"@);
        lemma_alike_members(pa, pb, "collaboration_mode"@);
        if pa.get("collaboration_mode"@) is Some {
            let ma = pa.get("collaboration_mode"@)->0;
            let mb = pb.get("collaboration_mode"@)->0;
            lemma_alike_members(ma, mb, "settings"@);
            if ma.get("settings"@) is Some {
                let sa = ma.get("settings"@)->0;
                let sb = mb.get("settings"@)->0;
                lemma_alike_members(sa, sb, "model_provider"@);
                lemma_alike_members(sa, sb, "model"@);
            }
        }
    }
}

/// Whatever is read from the text of an updated row needs no further update.
proof fn lemma_update_is_final(
    row: JsonTree,
    read: JsonTree,
    provider: Seq<char>,
    model: Seq<char>,
)
    requires
        alike(updated_row(row, provider, model), read),
    ensures
        !payload_stale(read, provider, model),
{
    an_update_settles_the_payload(row, provider, model);
    lemma_alike_rows_are_stale_alike(
        updated_row(row, provider, model),
        read,
        provider,
        model,
    );
}

/// The row that replaces a metadata row which names another provider or model.
pub fn rewrite_metadata_row(row: Json, provider: &str, model: &str) -> (r: Option<Json>)
    ensures
        opt_tree(r) == metadata_update(row@, provider@, model@),
{
    let metadata = match row.text_at("type") {
        Some(kind) => same_text(kind.as_str(), "session_meta") || same_text(
            kind.as_str(),
            "turn_context",
        ),
        None => false,
    };
    if metadata && payload_needs_update(&row, provider, model) {
        Some(update_row(row, provider, model))
    } else {
        None
    }
}

/// The line that replaces a line of session metadata which names another provider or model.
/// A second rewrite finds nothing to do in it.
pub fn rewrite_metadata_line(line: &str, provider: &str, model: &str) -> (r: Option<String>)
    ensures
        opt_view(r) == line_update(line@, provider@, model@),
        r is Some ==> r->0@.len() > 0 && forall|i: int|
            0 <= i < r->0@.len() ==> #[trigger] r->0@[i] >= ' ',
        r is Some ==> line_update(r->0@, provider@, model@) is None,
{
    if !contains(line, "\"session_meta\"") && !contains(line, "\"turn_context\"") {
        return None;
    }
    let row = match parse(line) {
        Some(row) => row,
        None => {
            return None;
        },
    };
    let ghost old_row = row@;
    match rewrite_metadata_row(row, provider, model) {
        Some(updated) => {
            let text = updated.render();
            proof {
                if json_of_text(text@) is Some {
                    lemma_update_is_final(
                        old_row,
                        json_of_text(text@)->0,
                        provider@,
                        model@,
                    );
                }
            }
            Some(text)
        },
        None => None,
    }
}

/// Joins lines to the content of a file whose old content is given.
fn rebuild(content: &str, rows: &Vec<String>) -> (r: String)
    ensures
        r@ == rebuilt(content@, views(rows@)),
{
    proof {
        reveal_strlit("\n");
        assert("\n"@ =~= seq!['\n']);
    }
    let mut out = join(rows, "\n");
    if ends_with(content, "\n") {
        proof {
            assert(content@.last() == "\n"@[0]);
        }
        out.push('\n');
        proof {
            assert(out@ =~= joined(views(rows@), seq!['\n']) + seq!['\n']);
        }
    } else {
        proof {
            if content@.len() > 0 && content@.last() == '\n' {
                assert(content@.subrange(content@.len() - 1, content@.len() as int) =~= seq!['\n']);
            }
            assert(out@ + Seq::<char>::empty() =~= out@);
        }
    }
    out
}

/// Rebuilt content is read back as the lines that it was built from.
proof fn lemma_rebuilt_lines(content: Seq<char>, rows: Seq<Seq<char>>)
    requires
        content.len() > 0,
        rows.len() > 0,
        forall|i: int| 0 <= i < rows.len() ==> is_line(#[trigger] rows[i]),
        content.last() != '\n' ==> rows.last().len() > 0,
    ensures
        lines_of(rebuilt(content, rows)) == rows,
{
    joined_lines_read_back(rows, content.last() == '\n');
}

/// A text of JSON can stand as a line.
proof fn lemma_printable_is_line(s: Seq<char>)
    requires
        forall|i: int| 0 <= i < s.len() ==> #[trigger] s[i] >= ' ',
    ensures
        is_line(s),
{
    if s.len() > 0 {
        assert(s[s.len() - 1] >= ' ');
    }
}

/// What is known of a record after a metadata sync: it is one, it ends as the record did, and
/// it stays as it is in the next.
#[verifier::opaque]
spec fn is_settled(record: Seq<char>, provider: Seq<char>, model: Seq<char>) -> bool {
    let synced = synced_record(record, provider, model);
    &&& is_record(synced)
    &&& record.last() == '\n' ==> synced.last() == '\n'
    &&& line_update(without_line_end(synced), provider, model) is None
}

proof fn lemma_line_keeps_its_end(line: Seq<char>, record: Seq<char>)
    requires
        is_record(record),
        line.len() > 0,
        forall|i: int| 0 <= i < line.len() ==> #[trigger] line[i] >= ' ',
    ensures
        without_line_end(line + record_end(record)) == line,
        is_record(line + record_end(record)),
        record.last() == '\n' ==> (line + record_end(record)).last() == '\n',
{
    let end = record_end(record);
    let n = record.len();
    assert(line[line.len() - 1] >= ' ');
    if record.last() != '\n' {
        assert(end =~= Seq::<char>::empty());
        assert(line + end =~= line);
    } else if n > 1 && record[n - 2] == '\r' {
        assert(end =~= seq!['\r', '\n']);
        assert((line + end).drop_last().drop_last() =~= line);
        assert((line + end).drop_last().last() == '\r');
    } else {
        assert(end =~= seq!['\n']);
        assert((line + end).drop_last() =~= line);
    }
    let inner = (line + end).drop_last();
    assert forall|i: int| 0 <= i < inner.len() implies inner[i] != '\n' by {
        if i < line.len() {
            assert(line[i] >= ' ');
        }
    }
}

fn sync_record(record: &str, provider: &str, model: &str) -> (r: Option<String>)
    requires
        is_record(record@),
    ensures
        r is Some <==> line_update(without_line_end(record@), provider@, model@) is Some,
        r is Some ==> r->0@ == synced_record(record@, provider@, model@),
        is_settled(record@, provider@, model@),
{
    proof {
        reveal(is_settled);
    }
    let line = line_of(record);
    match rewrite_metadata_line(line.as_str(), provider, model) {
        Some(updated) => {
            let all = chars_of(record);
            let body = chars_of(line.as_str());
            let end = text_of(&all, body.len(), all.len());
            proof {
                assert(end@ =~= record_end(record@));
                lemma_line_keeps_its_end(updated@, record@);
            }
            let mut out = updated.clone();
            out.push_str(end.as_str());
            Some(out)
        },
        None => None,
    }
}

/// Points the metadata rows of a rollout at the target provider and model; `None` where no
/// row names another one.
///
/// Every other record stands as it was, byte for byte, and a second pass finds nothing to do.
pub fn process_session_metadata(content: &str, provider: &str, model: &str) -> (r: Option<
    RolloutRewrite,
>)
    ensures
        r is None <==> synced_count(records_of(content@), provider@, model@) == 0,
        r is Some ==> r->0.content@ == concat(
            synced_records(records_of(content@), provider@, model@),
        ),
        r is Some ==> r->0.lines_updated == synced_count(records_of(content@), provider@, model@),
        r is Some ==> records_of(r->0.content@) == synced_records(
            records_of(content@),
            provider@,
            model@,
        ),
        r is Some ==> synced_count(records_of(r->0.content@), provider@, model@) == 0,
{
    let rows = records(content);
    let ghost recs = records_of(content@);
    let ghost pred = |record: Seq<char>|
        line_update(without_line_end(record), provider@, model@) is Some;
    let ghost synced = synced_records(recs, provider@, model@);
    let mut out = String::new();
    let mut updated: usize = 0;
    let mut i: usize = 0;
    proof {
        lemma_no_items(recs);
        lemma_records(content@);
        assert(recs.len() == views(rows@).len() == rows@.len());
        assert(synced.take(0) =~= Seq::<Seq<char>>::empty());
    }
    while i < rows.len()
        invariant
            views(rows@) == recs,
            recs == records_of(content@),
            recs.len() == rows@.len(),
            synced == synced_records(recs, provider@, model@),
            pred == (|record: Seq<char>|
                line_update(without_line_end(record), provider@, model@) is Some),
            forall|j: int| 0 <= j < recs.len() ==> is_record(#[trigger] recs[j]),
            i <= rows@.len(),
            updated <= i,
            updated == recs.take(i as int).filter(pred).len(),
            out@ == concat(synced.take(i as int)),
            forall|j: int| 0 <= j < i ==> is_settled(#[trigger] recs[j], provider@, model@),
        decreases rows@.len() - i,
    {
        proof {
            assert(views(rows@)[i as int] == rows@[i as int]@);
            lemma_filter_step(recs, i as int, pred);
            assert(synced.take(i + 1).drop_last() =~= synced.take(i as int));
            assert(synced.take(i + 1).last() == synced_record(recs[i as int], provider@, model@));
        }
        match sync_record(rows[i].as_str(), provider, model) {
            Some(text) => {
                out.push_str(text.as_str());
                updated += 1;
            },
            None => {
                out.push_str(rows[i].as_str());
            },
        }
        i += 1;
    }
    proof {
        lemma_no_items(recs);
    }
    if updated == 0 {
        return None;
    }
    proof {
        assert(synced.take(synced.len() as int) =~= synced);
        assert forall|j: int| 0 <= j < synced.len() implies is_record(#[trigger] synced[j]) by {
            assert(is_settled(recs[j], provider@, model@));
            reveal(is_settled);
        }
        assert forall|j: int| 0 <= j < synced.len() - 1 implies (#[trigger] synced[j]).last()
            == '\n' by {
            assert(is_settled(recs[j], provider@, model@));
            assert(recs[j].last() == '\n');
            reveal(is_settled);
        }
        records_read_back(synced);
        assert forall|j: int| 0 <= j < synced.len() implies !pred(#[trigger] synced[j]) by {
            assert(is_settled(recs[j], provider@, model@));
            reveal(is_settled);
        }
        synced.lemma_all_neg_filter_empty(pred);
    }
    Some(RolloutRewrite { content: out, lines_updated: updated })
}

/// A metadata sync keeps the number of records, and each record that it does not replace;
/// what it replaces are rows of session metadata.
pub proof fn a_sync_keeps_other_records(
    recs: Seq<Seq<char>>,
    provider: Seq<char>,
    model: Seq<char>,
    i: int,
)
    requires
        0 <= i < recs.len(),
    ensures
        synced_records(recs, provider, model).len() == recs.len(),
        synced_records(recs, provider, model)[i] != recs[i] ==> json_of_text(
            without_line_end(recs[i]),
        ) is Some && is_metadata(json_of_text(without_line_end(recs[i]))->0),
{
}

// ---------------------------------------------------------------------------
// Full rewrites
// ---------------------------------------------------------------------------

/// A line that is no JSON document.
#[derive(Debug, PartialEq, Eq)]
pub struct UnreadableRow {
    pub line: usize,
}

/// Whether a line is a row whose payload names another provider or model.
pub open spec fn line_stale(line: Seq<char>, provider: Seq<char>, model: Seq<char>) -> bool {
    json_of_text(line) is Some && payload_stale(json_of_text(line)->0, provider, model)
}

/// How many lines name another provider or model.
pub open spec fn stale_count(rows: Seq<Seq<char>>, provider: Seq<char>, model: Seq<char>) -> nat {
    rows.filter(|line: Seq<char>| line_stale(line, provider, model)).len()
}

/// The first line that is no JSON document, or the number of lines.
pub open spec fn readable_rows(rows: Seq<Seq<char>>) -> nat
    decreases rows.len(),
{
    if rows.len() == 0 || json_of_text(rows[0]) is None {
        0
    } else {
        1 + readable_rows(rows.drop_first())
    }
}

/// The text of a row after a full rewrite.
pub open spec fn rewritten_line(line: Seq<char>, provider: Seq<char>, model: Seq<char>) -> Seq<
    char,
> {
    json_text(updated_row(json_of_text(line)->0, provider, model))
}

/// The lines after a full rewrite, one for one.
pub open spec fn rewritten_lines(
    rows: Seq<Seq<char>>,
    provider: Seq<char>,
    model: Seq<char>,
) -> Seq<Seq<char>> {
    rows.map_values(|line: Seq<char>| rewritten_line(line, provider, model))
}

proof fn lemma_readable_rows(rows: Seq<Seq<char>>, n: int)
    requires
        0 <= n <= rows.len(),
        forall|i: int| 0 <= i < n ==> json_of_text(#[trigger] rows[i]) is Some,
        n < rows.len() ==> json_of_text(rows[n]) is None,
    ensures
        readable_rows(rows) == n,
    decreases n,
{
    if n > 0 {
        assert(json_of_text(rows[0]) is Some);
        let rest = rows.drop_first();
        assert forall|i: int| 0 <= i < n - 1 implies json_of_text(#[trigger] rest[i]) is Some by {
            assert(rest[i] == rows[i + 1]);
        }
        lemma_readable_rows(rest, n - 1);
    }
}

fn any_stale(rows: &Vec<String>, provider: &str, model: &str) -> (r: bool)
    ensures
        r == (stale_count(views(rows@), provider@, model@) > 0),
{
    let ghost all = views(rows@);
    let ghost pred = |line: Seq<char>| line_stale(line, provider@, model@);
    let mut i: usize = 0;
    while i < rows.len()
        invariant
            all == views(rows@),
            pred == (|line: Seq<char>| line_stale(line, provider@, model@)),
            i <= rows@.len(),
            forall|j: int| 0 <= j < i ==> !pred(#[trigger] all[j]),
        decreases rows@.len() - i,
    {
        proof {
            assert(all[i as int] == rows@[i as int]@);
        }
        if let Some(row) = parse(rows[i].as_str()) {
            if payload_needs_update(&row, provider, model) {
                proof {
                    all.lemma_filter_contains(pred, i as int);
                    let kept = all.filter(pred);
                    let at = choose|j: int| 0 <= j < kept.len() && kept[j] == all[i as int];
                    assert(kept.len() > 0);
                }
                return true;
            }
        }
        i += 1;
    }
    proof {
        all.lemma_all_neg_filter_empty(pred);
    }
    false
}

/// Rewrites every row of a rollout for the target provider and model: `None` where no row
/// names another one, and an error where one does but some line is no JSON document.
///
/// A second pass finds nothing to do.
pub fn process_session(content: &str, provider: &str, model: &str) -> (r: Result<
    Option<RolloutRewrite>,
    UnreadableRow,
>)
    ensures
        ({
            let rows = lines_of(content@);
            if stale_count(rows, provider@, model@) == 0 {
                r == Ok::<Option<RolloutRewrite>, UnreadableRow>(None)
            } else if readable_rows(rows) < rows.len() {
                r is Err && r->Err_0.line == readable_rows(rows)
            } else {
                r is Ok && r->Ok_0 is Some && r->Ok_0->0.content@ == rebuilt(
                    content@,
                    rewritten_lines(rows, provider@, model@),
                ) && r->Ok_0->0.lines_updated == stale_count(rows, provider@, model@)
            }
        }),
        r is Ok && r->Ok_0 is Some ==> lines_of(r->Ok_0->0.content@) == rewritten_lines(
            lines_of(content@),
            provider@,
            model@,
        ),
        r is Ok && r->Ok_0 is Some ==> stale_count(
            rewritten_lines(lines_of(content@), provider@, model@),
            provider@,
            model@,
        ) == 0,
{
    let rows = lines(content);
    let ghost old_rows = lines_of(content@);
    let ghost pred = |line: Seq<char>| line_stale(line, provider@, model@);
    if !any_stale(&rows, provider, model) {
        return Ok(None);
    }
    let mut new_rows: Vec<String> = Vec::new();
    let mut updated: usize = 0;
    let mut i: usize = 0;
    proof {
        assert(old_rows.take(0) =~= Seq::<Seq<char>>::empty());
        assert(old_rows.len() == views(rows@).len() == rows@.len());
    }
    while i < rows.len()
        invariant
            views(rows@) == old_rows,
            old_rows == lines_of(content@),
            old_rows.len() == rows@.len(),
            stale_count(old_rows, provider@, model@) > 0,
            pred == (|line: Seq<char>| line_stale(line, provider@, model@)),
            i <= rows@.len(),
            new_rows@.len() == i,
            updated <= i,
            updated == old_rows.take(i as int).filter(pred).len(),
            forall|j: int| 0 <= j < i ==> json_of_text(#[trigger] old_rows[j]) is Some,
            forall|j: int|
                0 <= j < i ==> (#[trigger] new_rows@[j])@ == rewritten_line(
                    old_rows[j],
                    provider@,
                    model@,
                ) && new_rows@[j]@.len() > 0 && is_line(new_rows@[j]@),
            forall|j: int|
                0 <= j < i ==> !line_stale(
                    (#[trigger] new_rows@[j])@,
                    provider@,
                    model@,
                ),
        decreases rows@.len() - i,
    {
        proof {
            assert(views(rows@)[i as int] == rows@[i as int]@);
            lemma_filter_step(old_rows, i as int, pred);
        }
        let row = match parse(rows[i].as_str()) {
            Some(row) => row,
            None => {
                proof {
                    lemma_readable_rows(old_rows, i as int);
                }
                return Err(UnreadableRow { line: i });
            },
        };
        if payload_needs_update(&row, provider, model) {
            updated += 1;
        }
        let ghost old_row = row@;
        let text = update_row(row, provider, model).render();
        proof {
            lemma_printable_is_line(text@);
            if json_of_text(text@) is Some {
                lemma_update_is_final(old_row, json_of_text(text@)->0, provider@, model@);
            }
        }
        new_rows.push(text);
        i += 1;
    }
    let ghost rewritten = rewritten_lines(old_rows, provider@, model@);
    proof {
        lemma_readable_rows(old_rows, old_rows.len() as int);
        assert(old_rows.take(old_rows.len() as int) =~= old_rows);
        assert(views(new_rows@) =~= rewritten);
        lemma_lines(content@);
        assert forall|i: int| 0 <= i < rewritten.len() implies is_line(#[trigger] rewritten[i])
            && rewritten[i].len() > 0 by {
            assert(rewritten[i] == new_rows@[i]@);
        }
        assert(old_rows.len() > 0) by {
            if old_rows.len() == 0 {
                old_rows.lemma_all_neg_filter_empty(pred);
            }
        }
        lemma_rebuilt_lines(content@, rewritten);
        assert forall|i: int| 0 <= i < rewritten.len() implies !pred(#[trigger] rewritten[i]) by {
            assert(rewritten[i] == new_rows@[i]@);
        }
        rewritten.lemma_all_neg_filter_empty(pred);
    }
    Ok(Some(RolloutRewrite { content: rebuild(content, &new_rows), lines_updated: updated }))
}

// ---------------------------------------------------------------------------
// Repair of rows that validation rejects
// ---------------------------------------------------------------------------

/// Whether a row is a response item: something that is replayed as model input.
pub open spec fn is_response_item(row: JsonTree) -> bool {
    row.text_at("type"@) == Some("response_item"@)
}

/// Whether a row is a display projection: synthetic, and never meant as model input.
pub open spec fn is_projection(row: JsonTree) -> bool {
    is_response_item(row) && row.get_in("payload"@, "ucp_display_projection"@) == Some(
        JsonTree::Bool(true),
    )
}

/// Whether the members of an item are those of a tool call.
pub open spec fn is_tool_call(item: Members) -> bool {
    JsonTree::Object(item).text_at("type"@) == Some("function_call"@) || JsonTree::Object(
        item,
    ).text_at("type"@) == Some("custom_tool_call"@)
}

/// Whether an item is a tool call whose name validation rejects.
pub open spec fn is_misnamed(item: Members) -> bool {
    is_tool_call(item) && JsonTree::Object(item).text_at("name"@) is Some && !valid_tool_name(
        JsonTree::Object(item).text_at("name"@)->0,
    )
}

/// The item with its name normalized.
pub open spec fn renamed(item: Members) -> Members {
    item.insert(
        "name"@,
        JsonTree::Text(normalized_tool_name(JsonTree::Object(item).text_at("name"@)->0)),
    )
}

/// Whether a row is a response item with a tool call whose name validation rejects.
pub open spec fn row_misnamed(row: JsonTree) -> bool {
    is_response_item(row) && payload_of(row) is Some && is_misnamed(payload_of(row)->0)
}

/// Whether a line is a display projection.
pub open spec fn line_is_projection(line: Seq<char>) -> bool {
    json_of_text(line) is Some && is_projection(json_of_text(line)->0)
}

/// Whether a line stays, but with a tool name normalized.
pub open spec fn line_is_misnamed(line: Seq<char>) -> bool {
    json_of_text(line) is Some && !is_projection(json_of_text(line)->0) && row_misnamed(
        json_of_text(line)->0,
    )
}

/// What a repair makes of a line: nothing of a projection, the row with its tool name
/// normalized, or the line itself.
pub open spec fn line_repair(line: Seq<char>) -> Option<Seq<char>> {
    if line_is_projection(line) {
        None
    } else if line_is_misnamed(line) {
        let row = json_of_text(line)->0;
        Some(json_text(with_payload(row, renamed(payload_of(row)->0))))
    } else {
        Some(line)
    }
}

/// The lines that a repair leaves.
pub open spec fn repaired_lines(rows: Seq<Seq<char>>) -> Seq<Seq<char>> {
    rows.filter_map(|line: Seq<char>| line_repair(line))
}

/// How many lines a repair removes.
pub open spec fn projection_count(rows: Seq<Seq<char>>) -> nat {
    rows.filter(|line: Seq<char>| line_is_projection(line)).len()
}

/// How many lines a repair renames a tool in.
pub open spec fn misnamed_count(rows: Seq<Seq<char>>) -> nat {
    rows.filter(|line: Seq<char>| line_is_misnamed(line)).len()
}

/// What a repair makes of a rollout: new content where anything is to be repaired.
#[derive(Debug, PartialEq, Eq)]
pub struct RolloutRepair {
    pub content: Option<String>,
    pub projection_rows_removed: usize,
    pub invalid_names_normalized: usize,
}

impl RolloutRepair {
    /// Whether anything is to be repaired.
    pub open spec fn is_affected(self) -> bool {
        self.content is Some
    }

    /// Whether anything is to be repaired.
    pub fn affected(&self) -> (r: bool)
        ensures
            r == self.is_affected(),
    {
        self.content.is_some()
    }
}

/// What a repair makes of one line.
#[derive(Debug, PartialEq, Eq)]
pub enum LineRepair {
    Keep,
    Remove,
    Replace(String),
}

/// Renaming a tool call keeps all of its row but the name: what pairs it with its output
/// stands as it was.
pub proof fn a_renaming_keeps_all_else(row: JsonTree, key: Seq<char>)
    requires
        row_misnamed(row),
        key != "name"@,
    ensures
        with_payload(row, renamed(payload_of(row)->0)).get_in("payload"@, key) == row.get_in(
            "payload"@,
            key,
        ),
        forall|k: Seq<char>|
            k != "payload"@ ==> #[trigger] with_payload(row, renamed(payload_of(row)->0)).get(k)
                == row.get(k),
{
    assert(row.get("payload"@) == Some(JsonTree::Object(payload_of(row)->0)));
}

/// A renamed row is in order: no projection, and named as validation asks.
pub proof fn a_renaming_is_final(row: JsonTree)
    requires
        row_misnamed(row),
        !is_projection(row),
    ensures
        !is_projection(with_payload(row, renamed(payload_of(row)->0))),
        !row_misnamed(with_payload(row, renamed(payload_of(row)->0))),
{
    lemma_field_names_differ();
    reveal_strlit("name");
    reveal_strlit("ucp_display_projection");
    assert("name"@.len() == 4);
    assert("ucp_display_projection"@.len() == 22);
    let item = payload_of(row)->0;
    let after = with_payload(row, renamed(item));
    a_renaming_keeps_all_else(row, "ucp_display_projection"@);
    assert(payload_of(after) == Some(renamed(item)));
    normalized_names_are_valid(JsonTree::Object(item).text_at("name"@)->0);
}

/// Whatever is read from the text of a renamed row is in order.
proof fn lemma_renaming_is_final(row: JsonTree, read: JsonTree)
    requires
        row_misnamed(row),
        !is_projection(row),
        alike(with_payload(row, renamed(payload_of(row)->0)), read),
    ensures
        !is_projection(read),
        !row_misnamed(read),
{
    let made = with_payload(row, renamed(payload_of(row)->0));
    a_renaming_is_final(row);
    lemma_alike_members(made, read, "type"@);
    lemma_alike_members(made, read, "payload"@);
    let item = made.get("payload"@)->0;
    let other = read.get("payload"@)->0;
    lemma_alike_members(item, other, "type"@);
    lemma_alike_members(item, other, "name"@);
    lemma_alike_members(item, other, "ucp_display_projection"@);
}

/// Whether a row is a response item.
pub fn row_is_response_item(row: &Json) -> (r: bool)
    ensures
        r == is_response_item(row@),
{
    match row.text_at("type") {
        Some(kind) => same_text(kind.as_str(), "response_item"),
        None => false,
    }
}

/// The name of a tool call which validation rejects, with its payload.
pub fn invalid_tool_name(item: &JsonObject) -> (r: Option<&String>)
    ensures
        r is Some <==> is_misnamed(item@),
        r is Some ==> JsonTree::Object(item@).text_at("name"@) == Some(r->0@),
{
    let is_call = match item.get("type") {
        Some(Json::Text(kind)) => same_text(kind.as_str(), "function_call") || same_text(
            kind.as_str(),
            "custom_tool_call",
        ),
        _ => false,
    };
    if !is_call {
        return None;
    }
    match item.get("name") {
        Some(Json::Text(name)) => {
            if is_valid_tool_name(name.as_str()) {
                None
            } else {
                Some(name)
            }
        },
        _ => None,
    }
}

/// The row with another payload.
pub fn replace_payload(row: Json, payload: JsonObject) -> (r: Json)
    requires
        row@ is Object,
    ensures
        r@ == with_payload(row@, payload@),
{
    match row {
        Json::Object(members) => {
            let mut members = members;
            members.insert("payload".to_owned(), Json::Object(payload));
            Json::Object(members)
        },
        other => other,
    }
}

/// What a repair makes of one line; a second repair keeps what it leaves.
pub fn repair_line(line: &str) -> (r: LineRepair)
    ensures
        r is Remove <==> line_is_projection(line@),
        r is Replace <==> line_is_misnamed(line@),
        r is Replace ==> line_repair(line@) == Some(r->Replace_0@),
        r is Replace ==> r->Replace_0@.len() > 0 && is_line(r->Replace_0@),
        r is Replace ==> !line_is_projection(r->Replace_0@) && !line_is_misnamed(r->Replace_0@),
        r is Keep ==> !line_is_projection(without_return(line@)) && !line_is_misnamed(
            without_return(line@),
        ),
        line@.len() == 0 ==> r is Keep,
{
    let row = match parse(line) {
        Some(row) => row,
        None => {
            return LineRepair::Keep;
        },
    };
    if !row_is_response_item(&row) {
        return LineRepair::Keep;
    }
    let projection = match row.get_in("payload", "ucp_display_projection") {
        Some(Json::Bool(flag)) => *flag,
        _ => false,
    };
    if projection {
        return LineRepair::Remove;
    }
    let item = match row.get("payload") {
        Some(Json::Object(item)) => {
            match invalid_tool_name(item) {
                Some(name) => {
                    let mut item = item.copy();
                    item.insert("name".to_owned(), Json::Text(normalize_tool_name(name.as_str())));
                    item
                },
                None => {
                    return LineRepair::Keep;
                },
            }
        },
        _ => {
            return LineRepair::Keep;
        },
    };
    let ghost old_row = row@;
    let text = replace_payload(row, item).render();
    proof {
        lemma_printable_is_line(text@);
        if json_of_text(text@) is Some {
            lemma_renaming_is_final(old_row, json_of_text(text@)->0);
        }
    }
    LineRepair::Replace(text)
}

/// Whether lines are read back from their joining, which may end with a line feed.
pub open spec fn stand_as_lines(rows: Seq<Seq<char>>, ends: bool) -> bool {
    &&& rows.len() > 0
    &&& forall|i: int| 0 <= i < rows.len() ==> is_line(#[trigger] rows[i])
    &&& !ends ==> rows.last().len() > 0
}

/// Whether a repair finds nothing to do in a line.
pub open spec fn needs_no_repair(line: Seq<char>) -> bool {
    !line_is_projection(line) && !line_is_misnamed(line)
}

proof fn lemma_repaired_content(content: Seq<char>, rows: Seq<Seq<char>>)
    requires
        content.len() > 0,
        forall|i: int|
            0 <= i < rows.len() ==> !(#[trigger] rows[i]).contains('\n') && needs_no_repair(rows[i])
                && needs_no_repair(without_return(rows[i])),
        rebuilt(content, rows) != seq!['\n'],
    ensures
        projection_count(lines_of(rebuilt(content, rows))) == 0,
        misnamed_count(lines_of(rebuilt(content, rows))) == 0,
        stand_as_lines(rows, content.last() == '\n') ==> lines_of(rebuilt(content, rows)) == rows,
{
    let removed = |line: Seq<char>| line_is_projection(line);
    let misnamed = |line: Seq<char>| line_is_misnamed(line);
    let ends = content.last() == '\n';
    let found = lines_of(text_of_lines(rows, ends));
    assert(rebuilt(content, rows) == text_of_lines(rows, ends));
    if rows.len() > 0 {
        joined_lines_nearly_read_back(rows, ends);
        if stand_as_lines(rows, ends) {
            joined_lines_read_back(rows, ends);
        }
        assert forall|j: int| 0 <= j < found.len() implies !removed(#[trigger] found[j])
            && !misnamed(found[j]) by {
            assert(needs_no_repair(rows[j]));
        }
    } else {
        assert(rebuilt(content, rows) =~= if ends {
            seq!['\n']
        } else {
            Seq::<char>::empty()
        });
        assert(found.len() == 0);
    }
    found.lemma_all_neg_filter_empty(removed);
    found.lemma_all_neg_filter_empty(misnamed);
}

/// Removes the display projections of a rollout and normalizes the tool names that
/// validation rejects; every other row stands as it was.
///
/// A second repair finds nothing to do.
pub fn repair_rollout(content: &str) -> (r: RolloutRepair)
    ensures
        r.projection_rows_removed == projection_count(lines_of(content@)),
        r.invalid_names_normalized == misnamed_count(lines_of(content@)),
        r.is_affected() <==> r.projection_rows_removed + r.invalid_names_normalized > 0,
        r.is_affected() ==> r.content->0@ == rebuilt(content@, repaired_lines(lines_of(content@))),
        r.is_affected() && stand_as_lines(
            repaired_lines(lines_of(content@)),
            content@.last() == '\n',
        ) ==> lines_of(r.content->0@) == repaired_lines(lines_of(content@)),
        r.is_affected() && r.content->0@ != seq!['\n'] ==> projection_count(
            lines_of(r.content->0@),
        ) == 0 && misnamed_count(lines_of(r.content->0@)) == 0,
        content@ == seq!['\n'] ==> !r.is_affected(),
{
    let rows = lines(content);
    let ghost old_rows = lines_of(content@);
    let ghost fixed = |line: Seq<char>| line_repair(line);
    let ghost removed = |line: Seq<char>| line_is_projection(line);
    let ghost misnamed = |line: Seq<char>| line_is_misnamed(line);
    let mut kept: Vec<String> = Vec::new();
    let mut projections: usize = 0;
    let mut names: usize = 0;
    let mut i: usize = 0;
    proof {
        lemma_lines(content@);
        assert(old_rows.take(0) =~= Seq::<Seq<char>>::empty());
        assert(old_rows.len() == views(rows@).len() == rows@.len());
        reveal_with_fuel(Seq::filter_map, 1);
        assert(views(kept@) =~= old_rows.take(0).filter_map(fixed));
    }
    while i < rows.len()
        invariant
            views(rows@) == old_rows,
            old_rows == lines_of(content@),
            old_rows.len() == rows@.len(),
            fixed == (|line: Seq<char>| line_repair(line)),
            removed == (|line: Seq<char>| line_is_projection(line)),
            misnamed == (|line: Seq<char>| line_is_misnamed(line)),
            i <= rows@.len(),
            kept@.len() <= i,
            views(kept@) == old_rows.take(i as int).filter_map(fixed),
            projections + names <= i,
            projections == old_rows.take(i as int).filter(removed).len(),
            names == old_rows.take(i as int).filter(misnamed).len(),
            forall|j: int|
                0 <= j < old_rows.len() ==> !(#[trigger] old_rows[j]).contains('\n'),
            forall|j: int|
                0 <= j < kept@.len() ==> !(#[trigger] kept@[j])@.contains('\n')
                    && needs_no_repair(kept@[j]@) && needs_no_repair(without_return(kept@[j]@)),
            i > 0 && old_rows[0].len() == 0 ==> needs_no_repair(old_rows[0]),
        decreases rows@.len() - i,
    {
        proof {
            assert(views(rows@)[i as int] == rows@[i as int]@);
            lemma_filter_step(old_rows, i as int, removed);
            lemma_filter_step(old_rows, i as int, misnamed);
            lemma_filter_map_step(old_rows, i as int, fixed);
        }
        let ghost before = views(kept@);
        match repair_line(rows[i].as_str()) {
            LineRepair::Remove => {
                projections += 1;
            },
            LineRepair::Replace(text) => {
                names += 1;
                kept.push(text);
                proof {
                    assert(views(kept@) =~= before.push(text@));
                }
            },
            LineRepair::Keep => {
                kept.push(rows[i].clone());
                proof {
                    assert(views(kept@) =~= before.push(rows@[i as int]@));
                }
            },
        }
        i += 1;
    }
    proof {
        assert(old_rows.take(old_rows.len() as int) =~= old_rows);
        let left = repaired_lines(old_rows);
        assert forall|j: int| 0 <= j < left.len() implies !(#[trigger] left[j]).contains('\n')
            && needs_no_repair(left[j]) && needs_no_repair(without_return(left[j])) by {
            assert(left[j] == kept@[j]@);
        }
        if projections + names > 0 {
            assert(content@.len() > 0) by {
                if content@.len() == 0 {
                    assert(old_rows.len() == 0);
                }
            }
            if rebuilt(content@, left) != seq!['\n'] {
                lemma_repaired_content(content@, left);
            } else if stand_as_lines(left, content@.last() == '\n') {
                joined_lines_read_back(left, content@.last() == '\n');
            }
        }
        if content@ == seq!['\n'] {
            joined_lines_read_back(seq![Seq::<char>::empty()], true);
            assert(joined(seq![Seq::<char>::empty()], seq!['\n']) + seq!['\n'] =~= content@);
            assert(old_rows =~= seq![Seq::<char>::empty()]);
            assert forall|j: int| 0 <= j < old_rows.len() implies !removed(#[trigger] old_rows[j])
                && !misnamed(old_rows[j]) by {
            }
            old_rows.lemma_all_neg_filter_empty(removed);
            old_rows.lemma_all_neg_filter_empty(misnamed);
        }
    }
    let content = if projections + names > 0 {
        Some(rebuild(content, &kept))
    } else {
        None
    };
    RolloutRepair {
        content,
        projection_rows_removed: projections,
        invalid_names_normalized: names,
    }
}

// ---------------------------------------------------------------------------
// Rollout files and what became of them
// ---------------------------------------------------------------------------

/// Whether a file name is that of a rollout.
pub open spec fn rollout_name(name: Seq<char>) -> bool {
    "rollout-"@.is_prefix_of(name) && ".jsonl"@.is_suffix_of(name)
}

/// Whether a file name is that of a rollout.
pub fn is_rollout_name(name: &str) -> (r: bool)
    ensures
        r == rollout_name(name@),
{
    starts_with(name, "rollout-") && ends_with(name, ".jsonl")
}

/// How sessions are synchronized.
#[derive(Debug, Clone, Copy)]
pub struct SessionSyncOptions {
    pub full_rollout_rewrite: bool,
}

impl Default for SessionSyncOptions {
    fn default() -> (r: Self)
        ensures
            !r.full_rollout_rewrite,
    {
        SessionSyncOptions { full_rollout_rewrite: false }
    }
}

/// What a synchronization did.
#[derive(Debug, Clone, Copy, PartialEq, Eq, Structural)]
pub struct SessionSyncSummary {
    pub rollouts_modified: usize,
    pub rollouts_skipped: usize,
    pub rollout_errors: usize,
    pub metadata_lines_updated: usize,
    pub db_records_updated: usize,
    pub db_backup_files: usize,
    pub db_errors: usize,
    pub history_rollouts_scanned: usize,
    pub history_tool_calls_indexed: usize,
    pub history_command_executions_indexed: usize,
    pub history_errors: usize,
}

impl Default for SessionSyncSummary {
    fn default() -> (r: Self)
        ensures
            r.rollouts_modified == 0,
            r.rollouts_skipped == 0,
            r.rollout_errors == 0,
            r.metadata_lines_updated == 0,
            r.db_records_updated == 0,
            r.db_backup_files == 0,
            r.db_errors == 0,
            r.history_rollouts_scanned == 0,
            r.history_tool_calls_indexed == 0,
            r.history_command_executions_indexed == 0,
            r.history_errors == 0,
    {
        SessionSyncSummary {
            rollouts_modified: 0,
            rollouts_skipped: 0,
            rollout_errors: 0,
            metadata_lines_updated: 0,
            db_records_updated: 0,
            db_backup_files: 0,
            db_errors: 0,
            history_rollouts_scanned: 0,
            history_tool_calls_indexed: 0,
            history_command_executions_indexed: 0,
            history_errors: 0,
        }
    }
}

/// What became of one rollout in a synchronization.
#[derive(Debug, Clone, Copy, PartialEq, Eq, Structural)]
pub enum RolloutOutcome {
    Modified(usize),
    Skipped,
    Failed,
}

/// What an update did to the state databases.
#[derive(Debug, Clone, Copy, PartialEq, Eq, Structural)]
pub struct DbUpdateSummary {
    pub records_updated: usize,
    pub backup_files: usize,
    pub errors: usize,
}

/// How many metadata lines an outcome accounts for.
pub open spec fn lines_updated(outcome: RolloutOutcome) -> nat {
    match outcome {
        RolloutOutcome::Modified(n) => n as nat,
        _ => 0,
    }
}

/// How many metadata lines the outcomes account for.
pub open spec fn all_lines_updated(outcomes: Seq<RolloutOutcome>) -> nat {
    total(outcomes, |outcome: RolloutOutcome| lines_updated(outcome))
}

/// How many rollouts were modified.
pub open spec fn modified_count(outcomes: Seq<RolloutOutcome>) -> nat {
    outcomes.filter(|outcome: RolloutOutcome| outcome is Modified).len()
}

/// How many rollouts stayed as they were.
pub open spec fn skipped_count(outcomes: Seq<RolloutOutcome>) -> nat {
    outcomes.filter(|outcome: RolloutOutcome| outcome is Skipped).len()
}

/// How many rollouts could not be synchronized.
pub open spec fn failed_count(outcomes: Seq<RolloutOutcome>) -> nat {
    outcomes.filter(|outcome: RolloutOutcome| outcome is Failed).len()
}

/// Accounts for the rollouts of a synchronization.
pub fn sync_rollout_files(outcomes: &Vec<RolloutOutcome>, summary: &mut SessionSyncSummary)
    requires
        old(summary).rollouts_modified + outcomes@.len() <= usize::MAX,
        old(summary).rollouts_skipped + outcomes@.len() <= usize::MAX,
        old(summary).rollout_errors + outcomes@.len() <= usize::MAX,
        old(summary).metadata_lines_updated + all_lines_updated(outcomes@) <= usize::MAX,
    ensures
        *final(summary) == (SessionSyncSummary {
            rollouts_modified: (old(summary).rollouts_modified + modified_count(
                outcomes@,
            )) as usize,
            rollouts_skipped: (old(summary).rollouts_skipped + skipped_count(
                outcomes@,
            )) as usize,
            rollout_errors: (old(summary).rollout_errors + failed_count(
                outcomes@,
            )) as usize,
            metadata_lines_updated: (old(summary).metadata_lines_updated + all_lines_updated(
                outcomes@,
            )) as usize,
            ..*old(summary)
        }),
{
    let ghost start = *summary;
    let ghost modified = |outcome: RolloutOutcome| outcome is Modified;
    let ghost skipped = |outcome: RolloutOutcome| outcome is Skipped;
    let ghost failed = |outcome: RolloutOutcome| outcome is Failed;
    let ghost counted = |outcome: RolloutOutcome| lines_updated(outcome);
    let mut i: usize = 0;
    proof {
        lemma_no_items(outcomes@);
    }
    while i < outcomes.len()
        invariant
            i <= outcomes@.len(),
            modified == (|outcome: RolloutOutcome| outcome is Modified),
            skipped == (|outcome: RolloutOutcome| outcome is Skipped),
            failed == (|outcome: RolloutOutcome| outcome is Failed),
            counted == (|outcome: RolloutOutcome| lines_updated(outcome)),
            start.rollouts_modified + outcomes@.len() <= usize::MAX,
            start.rollouts_skipped + outcomes@.len() <= usize::MAX,
            start.rollout_errors + outcomes@.len() <= usize::MAX,
            start.metadata_lines_updated + total(outcomes@, counted) <= usize::MAX,
            outcomes@.take(i as int).filter(modified).len() <= i,
            outcomes@.take(i as int).filter(skipped).len() <= i,
            outcomes@.take(i as int).filter(failed).len() <= i,
            summary.rollouts_modified == start.rollouts_modified + outcomes@.take(
                i as int,
            ).filter(modified).len(),
            summary.rollouts_skipped == start.rollouts_skipped + outcomes@.take(i as int).filter(
                skipped,
            ).len(),
            summary.rollout_errors == start.rollout_errors + outcomes@.take(i as int).filter(
                failed,
            ).len(),
            summary.metadata_lines_updated == start.metadata_lines_updated + total(
                outcomes@.take(i as int),
                counted,
            ),
            summary.db_records_updated == start.db_records_updated,
            summary.db_backup_files == start.db_backup_files,
            summary.db_errors == start.db_errors,
            summary.history_rollouts_scanned == start.history_rollouts_scanned,
            summary.history_tool_calls_indexed == start.history_tool_calls_indexed,
            summary.history_command_executions_indexed == start.history_command_executions_indexed,
            summary.history_errors == start.history_errors,
        decreases outcomes@.len() - i,
    {
        proof {
            lemma_filter_step(outcomes@, i as int, modified);
            lemma_filter_step(outcomes@, i as int, skipped);
            lemma_filter_step(outcomes@, i as int, failed);
            lemma_total_step(outcomes@, i as int, counted);
        }
        match outcomes[i] {
            RolloutOutcome::Modified(lines) => {
                summary.rollouts_modified = summary.rollouts_modified + 1;
                summary.metadata_lines_updated = summary.metadata_lines_updated + lines;
            },
            RolloutOutcome::Skipped => {
                summary.rollouts_skipped = summary.rollouts_skipped + 1;
            },
            RolloutOutcome::Failed => {
                summary.rollout_errors = summary.rollout_errors + 1;
            },
        }
        i += 1;
    }
}

// ---------------------------------------------------------------------------
// State databases
// ---------------------------------------------------------------------------

/// The provider and the model that a thread row should name instead of those it names;
/// `None` where it stays. A row without a model keeps none.
pub open spec fn thread_repair(
    provider: Option<Seq<char>>,
    model: Option<Seq<char>>,
    target_provider: Seq<char>,
    target_model: Seq<char>,
) -> Option<(Seq<char>, Option<Seq<char>>)> {
    let named = model is Some && model->0.len() > 0;
    if provider != Some(target_provider) || (named && model->0 != target_model) {
        Some(
            (
                target_provider,
                if named {
                    Some(target_model)
                } else {
                    model
                },
            ),
        )
    } else {
        None
    }
}

/// The provider and the model that a thread row should name; `None` where it stays.
pub fn thread_update(
    provider: &Option<String>,
    model: &Option<String>,
    target_provider: &str,
    target_model: &str,
) -> (r: Option<(String, Option<String>)>)
    ensures
        match r {
            Some(row) => thread_repair(
                opt_view(*provider),
                opt_view(*model),
                target_provider@,
                target_model@,
            ) == Some((row.0@, opt_view(row.1))),
            None => thread_repair(
                opt_view(*provider),
                opt_view(*model),
                target_provider@,
                target_model@,
            ) is None,
        },
{
    let same_provider = match provider {
        Some(found) => same_text(found.as_str(), target_provider),
        None => false,
    };
    let (named, same_model) = match model {
        Some(found) => (!found.as_str().is_empty(), same_text(found.as_str(), target_model)),
        None => (false, false),
    };
    if same_provider && (!named || same_model) {
        return None;
    }
    let model = if named {
        Some(target_model.to_owned())
    } else {
        copy_option(model)
    };
    Some((target_provider.to_owned(), model))
}

/// An updated thread row stays as it is.
pub proof fn a_thread_update_is_final(
    provider: Option<Seq<char>>,
    model: Option<Seq<char>>,
    target_provider: Seq<char>,
    target_model: Seq<char>,
)
    requires
        thread_repair(provider, model, target_provider, target_model) is Some,
    ensures
        ({
            let row = thread_repair(provider, model, target_provider, target_model)->0;
            thread_repair(Some(row.0), row.1, target_provider, target_model) is None
        }),
{
}

/// How many rows an update of one database changed, 0 where it failed.
pub open spec fn records_in(outcome: Option<DbUpdateSummary>) -> nat {
    match outcome {
        Some(summary) => summary.records_updated as nat,
        None => 0,
    }
}

/// How many files an update of one database backed up, 0 where it failed.
pub open spec fn backups_in(outcome: Option<DbUpdateSummary>) -> nat {
    match outcome {
        Some(summary) => summary.backup_files as nat,
        None => 0,
    }
}

/// How many errors an update of one database gave, 1 where it failed.
pub open spec fn errors_in(outcome: Option<DbUpdateSummary>) -> nat {
    match outcome {
        Some(summary) => summary.errors as nat,
        None => 1,
    }
}

/// How many rows the updates changed.
pub open spec fn db_records(outcomes: Seq<Option<DbUpdateSummary>>) -> nat {
    total(outcomes, |o: Option<DbUpdateSummary>| records_in(o))
}

/// How many files the updates backed up.
pub open spec fn db_backups(outcomes: Seq<Option<DbUpdateSummary>>) -> nat {
    total(outcomes, |o: Option<DbUpdateSummary>| backups_in(o))
}

/// How many errors the updates gave.
pub open spec fn db_failures(outcomes: Seq<Option<DbUpdateSummary>>) -> nat {
    total(outcomes, |o: Option<DbUpdateSummary>| errors_in(o))
}

/// Sums up the updates of several databases.
pub fn update_sessions_db(outcomes: &Vec<Option<DbUpdateSummary>>) -> (r: DbUpdateSummary)
    requires
        db_records(outcomes@) <= usize::MAX,
        db_backups(outcomes@) <= usize::MAX,
        db_failures(outcomes@) <= usize::MAX,
    ensures
        r.records_updated == db_records(outcomes@),
        r.backup_files == db_backups(outcomes@),
        r.errors == db_failures(outcomes@),
{
    let ghost records = |o: Option<DbUpdateSummary>| records_in(o);
    let ghost backups = |o: Option<DbUpdateSummary>| backups_in(o);
    let ghost failures = |o: Option<DbUpdateSummary>| errors_in(o);
    let mut sum = DbUpdateSummary { records_updated: 0, backup_files: 0, errors: 0 };
    let mut i: usize = 0;
    proof {
        lemma_no_items(outcomes@);
    }
    while i < outcomes.len()
        invariant
            i <= outcomes@.len(),
            records == (|o: Option<DbUpdateSummary>| records_in(o)),
            backups == (|o: Option<DbUpdateSummary>| backups_in(o)),
            failures == (|o: Option<DbUpdateSummary>| errors_in(o)),
            total(outcomes@, records) <= usize::MAX,
            total(outcomes@, backups) <= usize::MAX,
            total(outcomes@, failures) <= usize::MAX,
            sum.records_updated == total(outcomes@.take(i as int), records),
            sum.backup_files == total(outcomes@.take(i as int), backups),
            sum.errors == total(outcomes@.take(i as int), failures),
        decreases outcomes@.len() - i,
    {
        proof {
            lemma_total_step(outcomes@, i as int, records);
            lemma_total_step(outcomes@, i as int, backups);
            lemma_total_step(outcomes@, i as int, failures);
        }
        match outcomes[i] {
            Some(one) => {
                sum.records_updated = sum.records_updated + one.records_updated;
                sum.backup_files = sum.backup_files + one.backup_files;
                sum.errors = sum.errors + one.errors;
            },
            None => {
                sum.errors = sum.errors + 1;
            },
        }
        i += 1;
    }
    sum
}

/// The files that belong to a database: itself, its write-ahead log and its shared memory.
pub fn sqlite_files(db_path: &str) -> (r: Vec<String>)
    ensures
        views(r@) == seq![db_path@, db_path@ + "-wal"@, db_path@ + "-shm"@],
{
    let mut out: Vec<String> = Vec::new();
    out.push(db_path.to_owned());
    out.push(sqlite_sidecar_path(db_path, "-wal"));
    out.push(sqlite_sidecar_path(db_path, "-shm"));
    proof {
        assert(views(out@) =~= seq![db_path@, db_path@ + "-wal"@, db_path@ + "-shm"@]);
    }
    out
}

/// The path of a file beside a database.
pub fn sqlite_sidecar_path(db_path: &str, suffix: &str) -> (r: String)
    ensures
        r@ == db_path@ + suffix@,
{
    let mut out = db_path.to_owned();
    out.push_str(suffix);
    out
}

// ---------------------------------------------------------------------------
// Synchronization
// ---------------------------------------------------------------------------

/// What a synchronization did, from what became of the rollouts, of the databases, and of
/// the history index, which is `None` where it failed.
pub fn unify_sessions(
    rollouts: &Vec<RolloutOutcome>,
    databases: &DbUpdateSummary,
    history: &Option<HistoryIndexSummary>,
) -> (r: SessionSyncSummary)
    requires
        all_lines_updated(rollouts@) <= usize::MAX,
    ensures
        r.rollouts_modified == modified_count(rollouts@),
        r.rollouts_skipped == skipped_count(rollouts@),
        r.rollout_errors == failed_count(rollouts@),
        r.metadata_lines_updated == all_lines_updated(rollouts@),
        r.db_records_updated == databases.records_updated,
        r.db_backup_files == databases.backup_files,
        r.db_errors == databases.errors,
        match history {
            Some(h) => r.history_rollouts_scanned == h.rollouts_scanned
                && r.history_tool_calls_indexed == h.tool_calls_indexed
                && r.history_command_executions_indexed == h.command_executions_indexed
                && r.history_errors == h.errors,
            None => r.history_rollouts_scanned == 0 && r.history_tool_calls_indexed == 0
                && r.history_command_executions_indexed == 0 && r.history_errors == 1,
        },
{
    let mut summary = SessionSyncSummary::default();
    let count: usize = rollouts.len();
    proof {
        assert(rollouts@.len() == count);
        rollouts@.lemma_filter_len(|outcome: RolloutOutcome| outcome is Modified);
        rollouts@.lemma_filter_len(|outcome: RolloutOutcome| outcome is Skipped);
        rollouts@.lemma_filter_len(|outcome: RolloutOutcome| outcome is Failed);
    }
    sync_rollout_files(rollouts, &mut summary);
    summary.db_records_updated = databases.records_updated;
    summary.db_backup_files = databases.backup_files;
    summary.db_errors = databases.errors;
    match history {
        Some(h) => {
            summary.history_rollouts_scanned = h.rollouts_scanned;
            summary.history_tool_calls_indexed = h.tool_calls_indexed;
            summary.history_command_executions_indexed = h.command_executions_indexed;
            summary.history_errors = h.errors;
        },
        None => {
            summary.history_errors = 1;
        },
    }
    summary
}

impl SessionSyncSummary {
    /// Whether the backup directory holds anything worth keeping.
    pub open spec fn backed_up(self) -> bool {
        self.rollouts_modified > 0 || self.db_backup_files > 0
    }

    /// Whether the backup directory is kept.
    pub fn keeps_backup(&self) -> (r: bool)
        ensures
            r == self.backed_up(),
    {
        self.rollouts_modified > 0 || self.db_backup_files > 0
    }
}

/// Whether a name is that of a session backup.
pub open spec fn backup_name(name: Seq<char>) -> bool {
    ".sessions_backup_"@.is_prefix_of(name)
}

/// How many letters a text begins with.
pub open spec fn letters_before(s: Seq<char>) -> nat
    decreases s.len(),
{
    if s.len() > 0 && ('a' <= s[0] <= 'z' || 'A' <= s[0] <= 'Z') {
        1 + letters_before(s.drop_first())
    } else {
        0
    }
}

/// The time that the name of a session backup holds: what follows the common beginning, and
/// the tag of letters that says what the backup was made for, if there is one.
pub open spec fn backup_time(name: Seq<char>) -> Seq<char> {
    match without_prefix(name, ".sessions_backup_"@) {
        Some(rest) => {
            let n = letters_before(rest);
            if 0 < n < rest.len() && rest[n as int] == '_' {
                rest.skip(n as int + 1)
            } else {
                rest
            }
        },
        None => name,
    }
}

/// The time that the name of a session backup holds.
pub fn time_of_backup(name: &str) -> (r: String)
    ensures
        r@ == backup_time(name@),
{
    let rest = match strip_prefix(name, ".sessions_backup_") {
        Some(rest) => rest,
        None => {
            return name.to_owned();
        },
    };
    let chars = chars_of(rest.as_str());
    let mut n: usize = 0;
    proof {
        assert(chars@.skip(0) =~= chars@);
    }
    while n < chars.len() && (('a' <= chars[n] && chars[n] <= 'z') || ('A' <= chars[n] && chars[n]
        <= 'Z'))
        invariant
            n <= chars@.len(),
            letters_before(chars@) == n + letters_before(chars@.skip(n as int)),
        decreases chars@.len() - n,
    {
        proof {
            assert(chars@.skip(n as int)[0] == chars@[n as int]);
            assert(chars@.skip(n as int).drop_first() =~= chars@.skip(n + 1));
        }
        n += 1;
    }
    proof {
        if n < chars@.len() {
            assert(chars@.skip(n as int)[0] == chars@[n as int]);
        }
        assert(letters_before(chars@) == n);
    }
    if 0 < n && n < chars.len() && chars[n] == '_' {
        proof {
            assert(chars@.subrange(n + 1, chars@.len() as int) =~= chars@.skip(n + 1));
        }
        text_of(&chars, n + 1, chars.len())
    } else {
        rest
    }
}

/// A session backup, which ranks by its time; those of one time rank by name.
#[derive(Debug)]
pub struct Backup {
    pub name: String,
}

impl Ranked for Backup {
    open spec fn ranks_before(self, other: Self) -> bool {
        let a = backup_time(self.name@);
        let b = backup_time(other.name@);
        text_before(a, b) || (a == b && text_before(self.name@, other.name@))
    }

    fn precedes(&self, other: &Self) -> (r: bool) {
        let a = time_of_backup(self.name.as_str());
        let b = time_of_backup(other.name.as_str());
        is_before(a.as_str(), b.as_str()) || (same_text(a.as_str(), b.as_str()) && is_before(
            self.name.as_str(),
            other.name.as_str(),
        ))
    }

    proof fn order_is_asymmetric(a: Self, b: Self) {
        text_order_is_total(backup_time(a.name@), backup_time(b.name@));
        text_order_is_total(a.name@, b.name@);
    }

    proof fn order_is_transitive(a: Self, b: Self, c: Self) {
        text_order_is_total(backup_time(a.name@), backup_time(b.name@));
        text_order_is_total(backup_time(b.name@), backup_time(c.name@));
        text_order_is_total(backup_time(a.name@), backup_time(c.name@));
        lemma_not_after_is_transitive(
            backup_time(a.name@),
            backup_time(b.name@),
            backup_time(c.name@),
        );
        if backup_time(a.name@) == backup_time(c.name@) {
            assert(backup_time(b.name@) == backup_time(a.name@));
            lemma_not_after_is_transitive(a.name@, b.name@, c.name@);
        }
    }
}

/// The session backup of a name, where it is the name of one.
pub open spec fn backup_of(name: String) -> Option<Backup> {
    if backup_name(name@) {
        Some(Backup { name })
    } else {
        None
    }
}

/// The session backups among the directories of the home directory, oldest first.
pub open spec fn backups_by_age(names: Seq<String>) -> Seq<Backup> {
    sorted(names.filter_map(|name: String| backup_of(name)))
}

/// The session backups that go, so that the given number of the newest stays.
pub fn prune_session_backups(names: Vec<String>, keep: usize) -> (r: Vec<String>)
    ensures
        ({
            let backups = backups_by_age(names@);
            r@ == backups.take(
                if backups.len() > keep {
                    backups.len() - keep
                } else {
                    0
                },
            ).map_values(|b: Backup| b.name)
        }),
{
    let ghost found = |name: String| backup_of(name);
    let mut backups: Vec<Backup> = Vec::new();
    let mut i: usize = 0;
    proof {
        lemma_no_items(names@);
        reveal_with_fuel(Seq::filter_map, 1);
    }
    while i < names.len()
        invariant
            i <= names@.len(),
            found == (|name: String| backup_of(name)),
            backups@ == names@.take(i as int).filter_map(found),
        decreases names@.len() - i,
    {
        proof {
            lemma_filter_map_step(names@, i as int, found);
        }
        if starts_with(names[i].as_str(), ".sessions_backup_") {
            backups.push(Backup { name: names[i].clone() });
        }
        i += 1;
    }
    let backups = sort(backups);
    proof {
        lemma_no_items(names@);
    }
    let count: usize = if backups.len() > keep {
        backups.len() - keep
    } else {
        0
    };
    let mut gone: Vec<String> = Vec::new();
    let mut j: usize = 0;
    while j < count
        invariant
            j <= count <= backups@.len(),
            gone@ == backups@.take(j as int).map_values(|b: Backup| b.name),
        decreases count - j,
    {
        gone.push(backups[j].name.clone());
        proof {
            assert(gone@ =~= backups@.take(j + 1).map_values(|b: Backup| b.name));
        }
        j += 1;
    }
    gone
}

/// What pruning takes is a session backup that was there, and none that stays is older.
pub proof fn pruning_keeps_the_newest(names: Seq<String>, keep: nat, i: int, j: int)
    requires
        0 <= i < backups_by_age(names).len() - keep <= j < backups_by_age(names).len(),
    ensures
        names.contains(backups_by_age(names)[i].name),
        backup_name(backups_by_age(names)[i].name@),
        !text_before(
            backup_time(backups_by_age(names)[j].name@),
            backup_time(backups_by_age(names)[i].name@),
        ),
{
    let found = |name: String| backup_of(name);
    let kept = names.filter_map(found);
    let backups = backups_by_age(names);
    sorting_orders_and_keeps(kept);
    assert(!backups[j].ranks_before(backups[i]));
    assert(backups.to_multiset().contains(backups[i])) by {
        backups.to_multiset_ensures();
        assert(backups.contains(backups[i]));
    }
    kept.to_multiset_ensures();
    assert(kept.contains(backups[i]));
    names.lemma_filter_map_contains(found, backups[i]);
}

// ---------------------------------------------------------------------------
// Repair of all rollouts
// ---------------------------------------------------------------------------

/// What a repair of the rollouts did, or would do.
#[derive(Debug, PartialEq, Eq)]
pub struct SessionRepairSummary {
    pub rollouts_scanned: usize,
    pub rollouts_affected: usize,
    pub rollouts_repaired: usize,
    pub projection_rows_removed: usize,
    pub invalid_names_normalized: usize,
    pub errors: usize,
    pub backup_dir: Option<String>,
}

/// Whether a rollout was looked at and needs a repair.
pub open spec fn needs_repair(outcome: Option<RolloutRepair>) -> bool {
    outcome is Some && outcome->0.is_affected()
}

/// How many rollouts need a repair.
pub open spec fn affected_count(outcomes: Seq<Option<RolloutRepair>>) -> nat {
    outcomes.filter(|o: Option<RolloutRepair>| needs_repair(o)).len()
}

/// How many projections the rollouts hold.
pub open spec fn projections_in(outcomes: Seq<Option<RolloutRepair>>) -> nat {
    total(
        outcomes,
        |o: Option<RolloutRepair>|
            match o {
                Some(repair) => repair.projection_rows_removed as nat,
                None => 0nat,
            },
    )
}

/// How many invalid names the rollouts hold.
pub open spec fn invalid_names_in(outcomes: Seq<Option<RolloutRepair>>) -> nat {
    total(
        outcomes,
        |o: Option<RolloutRepair>|
            match o {
                Some(repair) => repair.invalid_names_normalized as nat,
                None => 0nat,
            },
    )
}

/// How many rollouts could not be looked at or written.
pub open spec fn unrepaired_count(outcomes: Seq<Option<RolloutRepair>>) -> nat {
    outcomes.filter(|o: Option<RolloutRepair>| o is None).len()
}

/// Sums up a repair of the rollouts; an outcome is `None` where a rollout could not be looked
/// at or written. The backup directory is named where anything was repaired.
pub fn repair_session_history(
    outcomes: &Vec<Option<RolloutRepair>>,
    apply: bool,
    backup_dir: String,
) -> (r: SessionRepairSummary)
    requires
        projections_in(outcomes@) <= usize::MAX,
        invalid_names_in(outcomes@) <= usize::MAX,
    ensures
        r.rollouts_scanned == outcomes@.len(),
        r.rollouts_affected == affected_count(outcomes@),
        r.rollouts_repaired == (if apply {
            affected_count(outcomes@)
        } else {
            0
        }),
        r.projection_rows_removed == projections_in(outcomes@),
        r.invalid_names_normalized == invalid_names_in(outcomes@),
        r.errors == unrepaired_count(outcomes@),
        opt_view(r.backup_dir) == (if apply && affected_count(outcomes@) > 0 {
            Some(backup_dir@)
        } else {
            None
        }),
{
    let ghost needed = |o: Option<RolloutRepair>| needs_repair(o);
    let ghost failed = |o: Option<RolloutRepair>| o is None;
    let ghost removed = |o: Option<RolloutRepair>|
        match o {
            Some(repair) => repair.projection_rows_removed as nat,
            None => 0nat,
        };
    let ghost named = |o: Option<RolloutRepair>|
        match o {
            Some(repair) => repair.invalid_names_normalized as nat,
            None => 0nat,
        };
    let mut affected: usize = 0;
    let mut projections: usize = 0;
    let mut names: usize = 0;
    let mut errors: usize = 0;
    let mut i: usize = 0;
    proof {
        lemma_no_items(outcomes@);
        assert(projections_in(outcomes@) == total(outcomes@, removed));
        assert(invalid_names_in(outcomes@) == total(outcomes@, named));
    }
    while i < outcomes.len()
        invariant
            i <= outcomes@.len(),
            needed == (|o: Option<RolloutRepair>| needs_repair(o)),
            failed == (|o: Option<RolloutRepair>| o is None),
            removed == (|o: Option<RolloutRepair>|
                match o {
                    Some(repair) => repair.projection_rows_removed as nat,
                    None => 0nat,
                }),
            named == (|o: Option<RolloutRepair>|
                match o {
                    Some(repair) => repair.invalid_names_normalized as nat,
                    None => 0nat,
                }),
            total(outcomes@, removed) <= usize::MAX,
            total(outcomes@, named) <= usize::MAX,
            affected <= i,
            errors <= i,
            affected == outcomes@.take(i as int).filter(needed).len(),
            errors == outcomes@.take(i as int).filter(failed).len(),
            projections == total(outcomes@.take(i as int), removed),
            names == total(outcomes@.take(i as int), named),
        decreases outcomes@.len() - i,
    {
        proof {
            lemma_filter_step(outcomes@, i as int, needed);
            lemma_filter_step(outcomes@, i as int, failed);
            lemma_total_step(outcomes@, i as int, removed);
            lemma_total_step(outcomes@, i as int, named);
        }
        match &outcomes[i] {
            Some(repair) => {
                if repair.affected() {
                    affected += 1;
                }
                projections = projections + repair.projection_rows_removed;
                names = names + repair.invalid_names_normalized;
            },
            None => {
                errors += 1;
            },
        }
        i += 1;
    }
    proof {
        lemma_no_items(outcomes@);
    }
    let repaired: usize = if apply {
        affected
    } else {
        0
    };
    let backup_dir = if repaired > 0 {
        Some(backup_dir)
    } else {
        None
    };
    SessionRepairSummary {
        rollouts_scanned: outcomes.len(),
        rollouts_affected: affected,
        rollouts_repaired: repaired,
        projection_rows_removed: projections,
        invalid_names_normalized: names,
        errors,
        backup_dir,
    }
}

} // verus!
