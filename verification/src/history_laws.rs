//! What holds of the index of tool calls and commands, said of the members of the rows that it
//! is made of.
use vstd::prelude::*;

use crate::history::{
    call_execution, call_with_id, command_of, cwd_of, dynamic_call_of, event_execution, event_of,
    event_with_id, execution_of, execution_of_event, executions_of, milliseconds, note_line,
    parsed_command, parsed_commands, previews_in, rollout_thread, scan_of, server_call_of,
    session_of, tool_call_of, total_calls, total_executions, total_malformed, total_previews,
    total_rows, Event, IndexedRollout, Place, Scan, ToolCall, ToolCallRecord,
};
use crate::json::{json_of_text, json_text, number_signed, number_unsigned, JsonTree};
use crate::lists::{lemma_filter_map_step, lemma_filter_step, lemma_total_step};
use crate::text::{lemma_utf8_len_add, utf8_len};

verus! {

/// The members of an object.
pub type Members = Map<Seq<char>, JsonTree>;

// ---------------------------------------------------------------------------
// What is shown of a value
// ---------------------------------------------------------------------------

/// Whether a text is what is shown of a value: the text that it is, and the document of any
/// other value.
pub open spec fn stands_for(text: Seq<char>, value: JsonTree) -> bool {
    match value {
        JsonTree::Text(s) => text == s,
        other => text == json_text(other),
    }
}

/// Whether a preview and a number of bytes are those of a text: nothing is shown of an empty
/// text, a text within the limit is shown whole, and of a longer one the characters within the
/// limit are shown with a mark behind them.
pub open spec fn is_preview(
    shown: Option<Seq<char>>,
    bytes: Option<nat>,
    text: Seq<char>,
    limit: nat,
) -> bool {
    &&& bytes == Some(utf8_len(text))
    &&& text.len() == 0 ==> shown is None
    &&& 0 < text.len() <= limit ==> shown == Some(text)
    &&& limit < text.len() ==> shown is Some && shown->0 == text.take(limit as int)
        + "\n[truncated]"@
}

// ---------------------------------------------------------------------------
// Events
// ---------------------------------------------------------------------------

/// The collected output of a command is shown wherever there is one, whatever the other outputs
/// are; then the formatted one, then the standard output, and the error output only where none
/// of the other three is there.
pub proof fn the_collected_output_is_shown(m: Members, place: Place, text: Seq<char>)
    ensures
        ({
            let event = event_of(JsonTree::Object(m), place);
            let shows = is_preview(
                event.output_preview,
                event.output_bytes,
                text,
                place.preview_chars as nat,
            );
            &&& m.contains_key("aggregated_output"@) && stands_for(text, m["aggregated_output"@])
                ==> shows
            &&& !m.contains_key("aggregated_output"@) && m.contains_key("formatted_output"@)
                && stands_for(text, m["formatted_output"@]) ==> shows
            &&& !m.contains_key("aggregated_output"@) && !m.contains_key("formatted_output"@)
                && m.contains_key("stdout"@) && stands_for(text, m["stdout"@]) ==> shows
            &&& !m.contains_key("aggregated_output"@) && !m.contains_key("formatted_output"@)
                && !m.contains_key("stdout"@) && m.contains_key("stderr"@) && stands_for(
                text,
                m["stderr"@],
            ) ==> shows
            &&& !m.contains_key("aggregated_output"@) && !m.contains_key("formatted_output"@)
                && !m.contains_key("stdout"@) && !m.contains_key("stderr"@) ==> event.output_preview
                is None && event.output_bytes == Some(0nat)
        }),
{
    assert(utf8_len(Seq::<char>::empty()) == 0);
}

/// Where there is a collected output, the other outputs make no difference to the event.
pub proof fn other_outputs_make_no_difference(m: Members, key: Seq<char>, value: JsonTree, place: Place)
    requires
        m.contains_key("aggregated_output"@),
        key == "formatted_output"@ || key == "stdout"@ || key == "stderr"@,
    ensures
        event_of(JsonTree::Object(m.insert(key, value)), place) == event_of(
            JsonTree::Object(m),
            place,
        ),
{
    lemma_output_names(key);
    lemma_event_names(key);
    let more = m.insert(key, value);
    assert(more["aggregated_output"@] == m["aggregated_output"@]);
}

proof fn lemma_output_names(key: Seq<char>)
    requires
        key == "formatted_output"@ || key == "stdout"@ || key == "stderr"@,
    ensures
        key != "aggregated_output"@,
{
    reveal_strlit("aggregated_output");
    reveal_strlit("formatted_output");
    reveal_strlit("stdout");
    reveal_strlit("stderr");
    assert("aggregated_output"@.len() == 17);
    assert("formatted_output"@.len() == 16);
    assert("stdout"@.len() == 6);
    assert("stderr"@.len() == 6);
}

proof fn lemma_event_names(key: Seq<char>)
    requires
        key == "formatted_output"@ || key == "stdout"@ || key == "stderr"@,
    ensures
        key != "call_id"@,
        key != "command"@,
        key != "cmd"@,
        key != "cwd"@,
        key != "status"@,
        key != "exit_code"@,
        key != "duration"@,
        key != "parsed_cmd"@,
{
    reveal_strlit("formatted_output");
    reveal_strlit("stdout");
    reveal_strlit("stderr");
    reveal_strlit("call_id");
    reveal_strlit("command");
    reveal_strlit("cmd");
    reveal_strlit("cwd");
    reveal_strlit("status");
    reveal_strlit("exit_code");
    reveal_strlit("duration");
    reveal_strlit("parsed_cmd");
    assert("formatted_output"@.len() == 16);
    assert("stdout"@.len() == 6);
    assert("stderr"@.len() == 6);
    assert("stdout"@[2] == 'd');
    assert("stderr"@[2] == 'd');
    assert("status"@[2] == 'a');
    assert("call_id"@.len() == 7);
    assert("command"@.len() == 7);
    assert("cmd"@.len() == 3);
    assert("cwd"@.len() == 3);
    assert("exit_code"@.len() == 9);
    assert("duration"@.len() == 8);
    assert("parsed_cmd"@.len() == 10);
}

/// Whether an optional text is what a member of an object holds: the text where it is one, and
/// nothing otherwise.
pub open spec fn is_text_of(found: Option<Seq<char>>, m: Members, key: Seq<char>) -> bool {
    match found {
        Some(text) => m.contains_key(key) && m[key] == JsonTree::Text(text),
        None => !m.contains_key(key) || !(m[key] is Text),
    }
}

/// An event has its identity, its directory and its status from the members of these names, its
/// exit code from a whole number, and its place from the row.
pub proof fn an_event_is_read_member_by_member(m: Members, place: Place)
    ensures
        ({
            let event = event_of(JsonTree::Object(m), place);
            &&& is_text_of(event.call_id, m, "call_id"@)
            &&& is_text_of(event.cwd, m, "cwd"@)
            &&& is_text_of(event.status, m, "status"@)
            &&& event.thread_id == place.thread_id
            &&& event.timestamp == place.timestamp
            &&& event.rollout_path == place.rollout_path
            &&& event.event_line == place.line
            &&& forall|n: serde_json::Number|
                m.contains_key("exit_code"@) && m["exit_code"@] == JsonTree::Number(n)
                    ==> #[trigger] number_signed(n) == event.exit_code
            &&& !m.contains_key("exit_code"@) || !(m["exit_code"@] is Number) ==> event.exit_code
                is None
        }),
{
}

/// The command of an event is the last word of an array of words, and the text of `cmd` where
/// there is no such array.
pub proof fn the_last_word_is_the_command(m: Members, place: Place, words: Seq<Seq<char>>)
    requires
        words.len() > 0,
    ensures
        m.contains_key("command"@) && m["command"@] == JsonTree::Array(
            words.map_values(|word: Seq<char>| JsonTree::Text(word)),
        ) ==> event_of(JsonTree::Object(m), place).command_argv == Some(words) && event_of(
            JsonTree::Object(m),
            place,
        ).command == Some(words.last()),
        !m.contains_key("command"@) || !(m["command"@] is Array) ==> event_of(
            JsonTree::Object(m),
            place,
        ).command_argv is None && is_text_of(
            event_of(JsonTree::Object(m), place).command,
            m,
            "cmd"@,
        ),
{
    let make = |word: Seq<char>| JsonTree::Text(word);
    lemma_texts(words);
    assert(words.map_values(make) =~= words.map_values(|word: Seq<char>| JsonTree::Text(word)));
}

proof fn lemma_texts(words: Seq<Seq<char>>)
    ensures
        words.map_values(|word: Seq<char>| JsonTree::Text(word)).filter_map(
            |item: JsonTree| item.text(),
        ) == words,
    decreases words.len(),
{
    let make = |word: Seq<char>| JsonTree::Text(word);
    let read = |item: JsonTree| item.text();
    let items = words.map_values(make);
    if words.len() > 0 {
        let fewer = words.drop_last();
        lemma_texts(fewer);
        let n = items.len() - 1;
        lemma_filter_map_step(items, n, read);
        assert(items.take(n + 1) =~= items);
        assert(items.take(n) =~= fewer.map_values(make));
        assert(words =~= fewer.push(words.last()));
    } else {
        reveal_with_fuel(Seq::filter_map, 1);
        assert(items =~= Seq::<JsonTree>::empty());
        assert(items.filter_map(read) =~= words);
    }
}

/// A duration counts its milliseconds where it gives them, whatever else it gives; otherwise a
/// second counts for a thousand and a million nanoseconds for one, and what is missing for
/// nothing.
pub proof fn durations_are_milliseconds(m: Members, ms: u64, secs: u64, nanos: u64)
    requires
        secs * 1000 + nanos / 1000000 <= u64::MAX,
    ensures
        gives(m, "millis"@, ms) ==> milliseconds(Some(JsonTree::Object(m))) == Some(ms),
        gives_none(m, "millis"@) && gives(m, "secs"@, secs) && gives(m, "nanos"@, nanos)
            ==> milliseconds(Some(JsonTree::Object(m))) == Some(
            (secs * 1000 + nanos / 1000000) as u64,
        ),
        gives_none(m, "millis"@) && gives(m, "secs"@, secs) && gives_none(m, "nanos"@)
            ==> milliseconds(Some(JsonTree::Object(m))) == Some((secs * 1000) as u64),
        gives_none(m, "millis"@) && gives_none(m, "secs"@) && gives(m, "nanos"@, nanos)
            ==> milliseconds(Some(JsonTree::Object(m))) == Some((nanos / 1000000) as u64),
        milliseconds(None) is None,
{
}

/// Whether a member is a whole number that is not negative.
pub open spec fn gives(m: Members, key: Seq<char>, n: u64) -> bool {
    m.contains_key(key) && m[key] is Number && number_unsigned(m[key]->Number_0) == Some(n)
}

/// Whether a member is no whole number that is not negative.
pub open spec fn gives_none(m: Members, key: Seq<char>) -> bool {
    !m.contains_key(key) || !(m[key] is Number) || number_unsigned(m[key]->Number_0) is None
}

/// The duration of an event is that of its member `duration`.
pub proof fn an_event_has_its_duration(m: Members, place: Place)
    ensures
        m.contains_key("duration"@) ==> event_of(JsonTree::Object(m), place).duration_ms
            == milliseconds(Some(m["duration"@])),
        !m.contains_key("duration"@) ==> event_of(JsonTree::Object(m), place).duration_ms is None,
{
}

/// Parsed commands are read item by item, each from its members.
pub proof fn parsed_commands_are_read_item_by_item(
    m: Members,
    place: Place,
    items: Seq<JsonTree>,
    item: Members,
)
    ensures
        ({
            let read = parsed_command(JsonTree::Object(item));
            &&& is_text_of(read.kind, item, "type"@)
            &&& is_text_of(read.cmd, item, "cmd"@)
            &&& is_text_of(read.name, item, "name"@)
            &&& is_text_of(read.path, item, "path"@)
        }),
        parsed_commands(Some(JsonTree::Array(Seq::empty()))) == Seq::<
            crate::history::ParsedCommand,
        >::empty(),
        parsed_commands(Some(JsonTree::Array(items.push(JsonTree::Object(item)))))
            == parsed_commands(Some(JsonTree::Array(items))).push(
            parsed_command(JsonTree::Object(item)),
        ),
        m.contains_key("parsed_cmd"@) ==> event_of(JsonTree::Object(m), place).parsed_commands
            == parsed_commands(Some(m["parsed_cmd"@])),
        !m.contains_key("parsed_cmd"@) ==> event_of(
            JsonTree::Object(m),
            place,
        ).parsed_commands.len() == 0,
{
    let one = JsonTree::Object(item);
    assert(parsed_commands(Some(JsonTree::Array(items.push(one)))) =~= parsed_commands(
        Some(JsonTree::Array(items)),
    ).push(parsed_command(one)));
    assert(parsed_commands(Some(JsonTree::Array(Seq::empty()))) =~= Seq::empty());
}

// ---------------------------------------------------------------------------
// Calls
// ---------------------------------------------------------------------------

/// Whether the arguments of a call are shown as those of a value, or as nothing where there is
/// none.
pub open spec fn shows_arguments(call: ToolCall, m: Members, key: Seq<char>, limit: nat) -> bool {
    &&& m.contains_key(key) ==> forall|text: Seq<char>| #[trigger]
        stands_for(text, m[key]) ==> is_preview(
            call.arguments_preview,
            call.arguments_bytes,
            text,
            limit,
        )
    &&& !m.contains_key(key) ==> call.arguments_preview is None && call.arguments_bytes == Some(
        0nat,
    )
}

/// A function call and a custom call are noted under their names and of their kinds, a function
/// call with its arguments and a custom call with its input, and without an output.
pub proof fn a_call_is_read_member_by_member(
    m: Members,
    kind: Seq<char>,
    place: Place,
    name: Seq<char>,
)
    requires
        kind == "function_call"@ || kind == "custom_tool_call"@,
    ensures
        !m.contains_key("name"@) || !(m["name"@] is Text) ==> tool_call_of(
            JsonTree::Object(m),
            kind,
            place,
        ) is None,
        m.contains_key("name"@) && m["name"@] == JsonTree::Text(name) ==> ({
            let made = tool_call_of(JsonTree::Object(m), kind, place);
            &&& made is Some
            &&& made->0.tool_name == name
            &&& is_text_of(made->0.call_id, m, "call_id"@)
            &&& is_text_of(made->0.status, m, "status"@)
            &&& made->0.thread_id == place.thread_id
            &&& made->0.timestamp == place.timestamp
            &&& made->0.rollout_path == place.rollout_path
            &&& made->0.call_line == place.line
            &&& made->0.output_line is None
            &&& made->0.output_preview is None
            &&& made->0.output_bytes is None
            &&& kind == "function_call"@ ==> made->0.tool_kind == "function"@ && shows_arguments(
                made->0,
                m,
                "arguments"@,
                place.preview_chars as nat,
            )
            &&& kind == "custom_tool_call"@ ==> made->0.tool_kind == "custom"@ && shows_arguments(
                made->0,
                m,
                "input"@,
                place.preview_chars as nat,
            )
        }),
{
    reveal_strlit("function_call");
    reveal_strlit("custom_tool_call");
    assert("function_call"@.len() == 13);
    assert("custom_tool_call"@.len() == 16);
    assert(utf8_len(Seq::<char>::empty()) == 0);
}

/// The command of a shell call is its argument `cmd`, and its directory is `workdir`, or `cwd`
/// where there is no `workdir`; the arguments are the members of an object, or of the document
/// that a text holds.
pub proof fn a_shell_call_has_its_command(m: Members, args: Members, place: Place)
    requires
        m.contains_key("name"@),
        m["name"@] == JsonTree::Text("exec_command"@),
        m.contains_key("arguments"@),
        m["arguments"@] == JsonTree::Object(args) || (m["arguments"@] is Text && json_of_text(
            m["arguments"@]->Text_0,
        ) == Some(JsonTree::Object(args))),
    ensures
        ({
            let made = tool_call_of(JsonTree::Object(m), "function_call"@, place);
            &&& made is Some
            &&& is_text_of(made->0.command, args, "cmd"@)
            &&& args.contains_key("workdir"@) ==> is_text_of(made->0.cwd, args, "workdir"@)
            &&& !args.contains_key("workdir"@) ==> is_text_of(made->0.cwd, args, "cwd"@)
        }),
{
}

/// What is written to a running command is shown with its characters escaped, a custom command
/// is its own input, and other tools have no command.
pub proof fn other_calls_have_their_commands(name: Seq<char>, args: Members, raw: Seq<char>)
    ensures
        args.contains_key("chars"@) && args["chars"@] is Text ==> command_of(
            "write_stdin"@,
            Some(JsonTree::Object(args)),
            raw,
        ) == Some("stdin: "@ + crate::history::debug_escaped(args["chars"@]->Text_0)),
        !args.contains_key("chars"@) || !(args["chars"@] is Text) ==> command_of(
            "write_stdin"@,
            Some(JsonTree::Object(args)),
            raw,
        ) is None,
        command_of("exec"@, Some(JsonTree::Object(args)), raw) == Some(raw),
        command_of("exec"@, None, raw) == Some(raw),
        name != "exec_command"@ && name != "write_stdin"@ && name != "exec"@ ==> command_of(
            name,
            Some(JsonTree::Object(args)),
            raw,
        ) is None,
        cwd_of(None) is None,
{
    reveal_strlit("exec_command");
    reveal_strlit("write_stdin");
    reveal_strlit("exec");
    assert("exec_command"@.len() == 12);
    assert("write_stdin"@.len() == 11);
    assert("exec"@.len() == 4);
}

/// A call of a server is noted under the names of the server and of its tool, with the output
/// that came back; it counts as completed where one did and no status says otherwise.
pub proof fn a_server_call_is_noted_with_its_output(
    m: Members,
    invocation: Members,
    tool: Seq<char>,
    place: Place,
    text: Seq<char>,
)
    requires
        m.contains_key("invocation"@),
        m["invocation"@] == JsonTree::Object(invocation),
        invocation.contains_key("tool"@),
        invocation["tool"@] == JsonTree::Text(tool),
    ensures
        ({
            let made = server_call_of(JsonTree::Object(m), place);
            let call = made->0;
            let ok = m.contains_key("result"@) && m["result"@] is Object
                && m["result"@]->Object_0.contains_key("Ok"@);
            let shows = is_preview(
                call.output_preview,
                call.output_bytes,
                text,
                place.preview_chars as nat,
            );
            &&& made is Some
            &&& call.tool_kind == "mcp"@
            &&& forall|server: Seq<char>|
                invocation.contains_key("server"@) && invocation["server"@] == JsonTree::Text(
                    server,
                ) ==> call.tool_name == #[trigger] server.push('.') + tool
            &&& !invocation.contains_key("server"@) ==> call.tool_name == tool
            &&& is_text_of(call.call_id, m, "call_id"@)
            &&& shows_arguments(call, invocation, "arguments"@, place.preview_chars as nat)
            &&& call.call_line == place.line
            &&& call.output_line == Some(place.line)
            &&& m.contains_key("status"@) && m["status"@] is Text ==> is_text_of(
                call.status,
                m,
                "status"@,
            )
            &&& !m.contains_key("status"@) && ok ==> call.status == Some("completed"@)
            &&& !m.contains_key("status"@) && !ok ==> call.status is None
            &&& ok && stands_for(text, m["result"@]->Object_0["Ok"@]) ==> shows
            &&& !ok && m.contains_key("result"@) && stands_for(text, m["result"@]) ==> shows
            &&& !m.contains_key("result"@) ==> call.output_preview is None && call.output_bytes
                == Some(0nat)
        }),
{
    assert(utf8_len(Seq::<char>::empty()) == 0);
}

/// A dynamic call is noted under its namespace and its tool, with the identity that either of
/// the two spellings gives, `call_id` first.
pub proof fn a_dynamic_call_is_noted(m: Members, tool: Seq<char>, place: Place)
    requires
        m.contains_key("tool"@),
        m["tool"@] == JsonTree::Text(tool),
    ensures
        ({
            let made = dynamic_call_of(JsonTree::Object(m), place);
            let call = made->0;
            &&& made is Some
            &&& call.tool_kind == "dynamic"@
            &&& forall|space: Seq<char>|
                m.contains_key("namespace"@) && m["namespace"@] == JsonTree::Text(space)
                    ==> call.tool_name == #[trigger] space.push('.') + tool
            &&& !m.contains_key("namespace"@) ==> call.tool_name == tool
            &&& m.contains_key("call_id"@) && m["call_id"@] is Text ==> is_text_of(
                call.call_id,
                m,
                "call_id"@,
            )
            &&& !m.contains_key("call_id"@) ==> is_text_of(call.call_id, m, "callId"@)
            &&& is_text_of(call.status, m, "status"@)
            &&& shows_arguments(call, m, "arguments"@, place.preview_chars as nat)
            &&& call.call_line == place.line
            &&& call.output_line is None
        }),
{
    assert(utf8_len(Seq::<char>::empty()) == 0);
}

// ---------------------------------------------------------------------------
// Rows
// ---------------------------------------------------------------------------

/// The place of the row that follows some rows.
pub open spec fn next_place(
    rows: Seq<Seq<char>>,
    path: Seq<char>,
    preview_chars: usize,
    thread_id: Option<Seq<char>>,
    timestamp: Option<Seq<char>>,
) -> Place {
    Place { rollout_path: path, line: (rows.len() + 1) as usize, thread_id, timestamp, preview_chars }
}

/// A row that is no document is counted as malformed and changes nothing else; any other row is
/// counted as read.
pub proof fn malformed_rows_are_counted(
    rows: Seq<Seq<char>>,
    row: Seq<char>,
    thread_id: Option<Seq<char>>,
    path: Seq<char>,
    preview_chars: usize,
)
    ensures
        ({
            let before = scan_of(rows, thread_id, path, preview_chars);
            let after = scan_of(rows.push(row), thread_id, path, preview_chars);
            &&& json_of_text(row) is None ==> after == (Scan {
                malformed_lines: before.malformed_lines + 1,
                ..before
            })
            &&& json_of_text(row) is Some ==> after.json_lines_read == before.json_lines_read + 1
                && after.malformed_lines == before.malformed_lines
        }),
        scan_of(Seq::empty(), thread_id, path, preview_chars).json_lines_read == 0,
        scan_of(Seq::empty(), thread_id, path, preview_chars).malformed_lines == 0,
        scan_of(Seq::empty(), thread_id, path, preview_chars).thread_id == thread_id,
        scan_of(Seq::empty(), thread_id, path, preview_chars).calls.len() == 0,
        scan_of(Seq::empty(), thread_id, path, preview_chars).events.len() == 0,
        scan_of(Seq::empty(), thread_id, path, preview_chars).anonymous_events.len() == 0,
{
    lemma_scan_step(rows, row, thread_id, path, preview_chars);
}

proof fn lemma_scan_step(
    rows: Seq<Seq<char>>,
    row: Seq<char>,
    thread_id: Option<Seq<char>>,
    path: Seq<char>,
    preview_chars: usize,
)
    ensures
        scan_of(rows.push(row), thread_id, path, preview_chars) == note_line(
            scan_of(rows, thread_id, path, preview_chars),
            row,
            (rows.len() + 1) as usize,
            path,
            preview_chars,
        ),
{
    assert(rows.push(row).drop_last() =~= rows);
    assert(rows.push(row).last() == row);
    assert(rows.push(row).len() == rows.len() + 1);
}

/// The metadata of a session gives the thread from its row on; no other row changes it.
pub proof fn metadata_gives_the_thread(
    rows: Seq<Seq<char>>,
    row: Seq<char>,
    m: Members,
    payload: Members,
    id: Seq<char>,
    thread_id: Option<Seq<char>>,
    path: Seq<char>,
    preview_chars: usize,
)
    requires
        json_of_text(row) == Some(JsonTree::Object(m)),
    ensures
        ({
            let before = scan_of(rows, thread_id, path, preview_chars);
            let after = scan_of(rows.push(row), thread_id, path, preview_chars);
            let is_meta = m.contains_key("type"@) && m["type"@] == JsonTree::Text("session_meta"@);
            &&& is_meta && m.contains_key("payload"@) && m["payload"@] == JsonTree::Object(payload)
                && payload.contains_key("id"@) && payload["id"@] == JsonTree::Text(id)
                ==> after.thread_id == Some(id)
            &&& !is_meta || !m.contains_key("payload"@) ==> after.thread_id == before.thread_id
        }),
{
    lemma_scan_step(rows, row, thread_id, path, preview_chars);
}

/// A row with a call adds the call behind the others, with the number of the row, the thread so
/// far and the time of the row.
pub proof fn calls_are_noted_in_order(
    rows: Seq<Seq<char>>,
    row: Seq<char>,
    m: Members,
    payload: Members,
    kind: Seq<char>,
    thread_id: Option<Seq<char>>,
    path: Seq<char>,
    preview_chars: usize,
)
    requires
        is_row_with(row, m, payload, kind),
        session_of(JsonTree::Object(m)) is None,
    ensures
        ({
            let before = scan_of(rows, thread_id, path, preview_chars);
            let after = scan_of(rows.push(row), thread_id, path, preview_chars);
            let time = time_of(m);
            let place = next_place(rows, path, preview_chars, before.thread_id, time);
            let tree = JsonTree::Object(payload);
            let call = if kind == "mcp_tool_call_end"@ {
                server_call_of(tree, place)
            } else if kind == "dynamic_tool_call_request"@ {
                dynamic_call_of(tree, place)
            } else {
                tool_call_of(tree, kind, place)
            };
            (kind == "function_call"@ || kind == "custom_tool_call"@ || kind
                == "mcp_tool_call_end"@ || kind == "dynamic_tool_call_request"@) ==> ({
                &&& call is Some ==> after.calls == before.calls.push(call->0)
                &&& call is None ==> after.calls == before.calls
                &&& after.events == before.events
                &&& after.anonymous_events == before.anonymous_events
            })
        }),
{
    lemma_kinds_differ();
    lemma_scan_step(rows, row, thread_id, path, preview_chars);
}

/// The time of a row, where it gives one.
pub open spec fn time_of(m: Members) -> Option<Seq<char>> {
    if m.contains_key("timestamp"@) && m["timestamp"@] is Text {
        Some(m["timestamp"@]->Text_0)
    } else {
        None
    }
}

/// Whether a row holds an object with a payload of a kind.
pub open spec fn is_row_with(row: Seq<char>, m: Members, payload: Members, kind: Seq<char>) -> bool {
    &&& json_of_text(row) == Some(JsonTree::Object(m))
    &&& m.contains_key("payload"@)
    &&& m["payload"@] == JsonTree::Object(payload)
    &&& payload.contains_key("type"@)
    &&& payload["type"@] == JsonTree::Text(kind)
}

proof fn lemma_kinds_differ()
    ensures
        "function_call"@.len() == 13,
        "custom_tool_call"@.len() == 16,
        "function_call_output"@.len() == 20,
        "custom_tool_call_output"@.len() == 23,
        "mcp_tool_call_end"@.len() == 17,
        "dynamic_tool_call_request"@.len() == 25,
        "dynamic_tool_call_response"@.len() == 26,
        "exec_command_end"@.len() == 16,
        "exec_command_end"@ != "custom_tool_call"@,
{
    reveal_strlit("function_call");
    reveal_strlit("custom_tool_call");
    reveal_strlit("function_call_output");
    reveal_strlit("custom_tool_call_output");
    reveal_strlit("mcp_tool_call_end");
    reveal_strlit("dynamic_tool_call_request");
    reveal_strlit("dynamic_tool_call_response");
    reveal_strlit("exec_command_end");
    assert("exec_command_end"@[0] == 'e');
    assert("custom_tool_call"@[0] == 'c');
}

/// A row with the end of a command adds its event: behind the anonymous ones where it has no
/// identity, behind the others where its identity is new, and in the place of the event with
/// the same identity otherwise. No call changes.
pub proof fn events_are_noted_by_identity(
    rows: Seq<Seq<char>>,
    row: Seq<char>,
    m: Members,
    payload: Members,
    thread_id: Option<Seq<char>>,
    path: Seq<char>,
    preview_chars: usize,
)
    requires
        is_row_with(row, m, payload, "exec_command_end"@),
        session_of(JsonTree::Object(m)) is None,
    ensures
        ({
            let before = scan_of(rows, thread_id, path, preview_chars);
            let after = scan_of(rows.push(row), thread_id, path, preview_chars);
            let event = event_of(
                JsonTree::Object(payload),
                next_place(rows, path, preview_chars, before.thread_id, time_of(m)),
            );
            let known = |i: int|
                0 <= i < before.events.len() && before.events[i].call_id == event.call_id;
            &&& after.calls == before.calls
            &&& event.call_id is None ==> after.events == before.events && after.anonymous_events
                == before.anonymous_events.push(event)
            &&& event.call_id is Some ==> after.anonymous_events == before.anonymous_events
            &&& event.call_id is Some && (forall|i: int| !#[trigger] known(i)) ==> after.events
                == before.events.push(event)
            &&& event.call_id is Some && (exists|i: int| #[trigger] known(i)) ==> exists|i: int|
                #[trigger] known(i) && after.events == before.events.update(i, event)
        }),
{
    lemma_kinds_differ();
    lemma_scan_step(rows, row, thread_id, path, preview_chars);
    let before = scan_of(rows, thread_id, path, preview_chars);
    let event = event_of(
        JsonTree::Object(payload),
        next_place(rows, path, preview_chars, before.thread_id, time_of(m)),
    );
    let known = |i: int| 0 <= i < before.events.len() && before.events[i].call_id == event.call_id;
    if event.call_id is Some {
        let id = event.call_id->0;
        an_event_is_found_by_identity(before.events, id);
        match event_with_id(before.events, id) {
            Some(i) => {
                assert(known(i));
            },
            None => {},
        }
    }
}

/// A row with the output of a call gives it to the last call with the identity, and changes no
/// other call.
pub proof fn outputs_go_to_their_calls(
    rows: Seq<Seq<char>>,
    row: Seq<char>,
    m: Members,
    payload: Members,
    kind: Seq<char>,
    id: Seq<char>,
    text: Seq<char>,
    thread_id: Option<Seq<char>>,
    path: Seq<char>,
    preview_chars: usize,
)
    requires
        kind == "function_call_output"@ || kind == "custom_tool_call_output"@,
        is_row_with(row, m, payload, kind),
        payload.contains_key("call_id"@),
        payload["call_id"@] == JsonTree::Text(id),
        payload.contains_key("output"@),
        stands_for(text, payload["output"@]),
    ensures
        ({
            let before = scan_of(rows, thread_id, path, preview_chars).calls;
            let after = scan_of(rows.push(row), thread_id, path, preview_chars).calls;
            &&& after.len() == before.len()
            &&& forall|i: int| #![trigger after[i]]
                0 <= i < before.len() ==> if is_last_with(before, id, i) {
                    &&& after[i] == (ToolCall {
                        output_line: after[i].output_line,
                        output_preview: after[i].output_preview,
                        output_bytes: after[i].output_bytes,
                        ..before[i]
                    })
                    &&& after[i].output_line == Some((rows.len() + 1) as usize)
                    &&& is_preview(
                        after[i].output_preview,
                        after[i].output_bytes,
                        text,
                        preview_chars as nat,
                    )
                } else {
                    after[i] == before[i]
                }
        }),
{
    lemma_kinds_differ();
    lemma_scan_step(rows, row, thread_id, path, preview_chars);
    let before = scan_of(rows, thread_id, path, preview_chars).calls;
    a_call_is_found_by_identity(before, id);
}

/// A row with the response of a dynamic call gives its content to the last call with the
/// identity, which counts as completed where the response was a success; no other call changes.
pub proof fn responses_go_to_their_calls(
    rows: Seq<Seq<char>>,
    row: Seq<char>,
    m: Members,
    payload: Members,
    id: Seq<char>,
    text: Seq<char>,
    thread_id: Option<Seq<char>>,
    path: Seq<char>,
    preview_chars: usize,
)
    requires
        is_row_with(row, m, payload, "dynamic_tool_call_response"@),
        payload.contains_key("call_id"@),
        payload["call_id"@] == JsonTree::Text(id),
        payload.contains_key("content_items"@),
        stands_for(text, payload["content_items"@]),
    ensures
        ({
            let before = scan_of(rows, thread_id, path, preview_chars).calls;
            let after = scan_of(rows.push(row), thread_id, path, preview_chars).calls;
            let success = payload.contains_key("success"@) && payload["success"@] == JsonTree::Bool(
                true,
            );
            &&& after.len() == before.len()
            &&& forall|i: int| #![trigger after[i]]
                0 <= i < before.len() ==> if is_last_with(before, id, i) {
                    &&& after[i].output_line == Some((rows.len() + 1) as usize)
                    &&& is_preview(
                        after[i].output_preview,
                        after[i].output_bytes,
                        text,
                        preview_chars as nat,
                    )
                    &&& success ==> after[i].status == Some("completed"@)
                    &&& !success ==> after[i].status == before[i].status
                    &&& after[i].command == before[i].command
                    &&& after[i].tool_name == before[i].tool_name
                    &&& after[i].call_line == before[i].call_line
                } else {
                    after[i] == before[i]
                }
        }),
{
    lemma_kinds_differ();
    lemma_scan_step(rows, row, thread_id, path, preview_chars);
    let before = scan_of(rows, thread_id, path, preview_chars).calls;
    a_call_is_found_by_identity(before, id);
}

/// Whether a call is the last one with an identity.
pub open spec fn is_last_with(calls: Seq<ToolCall>, id: Seq<char>, i: int) -> bool {
    &&& 0 <= i < calls.len()
    &&& calls[i].call_id == Some(id)
    &&& forall|j: int| i < j < calls.len() ==> (#[trigger] calls[j]).call_id != Some(id)
}

/// A call is found by its identity, the last one where there are several.
pub proof fn a_call_is_found_by_identity(calls: Seq<ToolCall>, id: Seq<char>)
    ensures
        call_with_id(calls, id) matches Some(i) ==> is_last_with(calls, id, i),
        call_with_id(calls, id) is None ==> forall|i: int|
            0 <= i < calls.len() ==> (#[trigger] calls[i]).call_id != Some(id),
    decreases calls.len(),
{
    if calls.len() > 0 {
        let fewer = calls.drop_last();
        a_call_is_found_by_identity(fewer, id);
        assert forall|i: int| 0 <= i < fewer.len() implies fewer[i] == #[trigger] calls[i] by {}
    }
}

/// An event is found by its identity.
pub proof fn an_event_is_found_by_identity(events: Seq<Event>, id: Seq<char>)
    ensures
        event_with_id(events, id) matches Some(i) ==> 0 <= i < events.len() && events[i].call_id
            == Some(id),
        event_with_id(events, id) is None ==> forall|i: int|
            0 <= i < events.len() ==> (#[trigger] events[i]).call_id != Some(id),
    decreases events.len(),
{
    if events.len() > 0 {
        let fewer = events.drop_last();
        an_event_is_found_by_identity(fewer, id);
        assert forall|i: int| 0 <= i < fewer.len() implies fewer[i] == #[trigger] events[i] by {}
    }
}

/// A row of any other kind changes neither calls nor events.
pub proof fn other_rows_change_nothing(
    rows: Seq<Seq<char>>,
    row: Seq<char>,
    m: Members,
    payload: Members,
    kind: Seq<char>,
    thread_id: Option<Seq<char>>,
    path: Seq<char>,
    preview_chars: usize,
)
    requires
        is_row_with(row, m, payload, kind),
        kind != "function_call"@,
        kind != "custom_tool_call"@,
        kind != "function_call_output"@,
        kind != "custom_tool_call_output"@,
        kind != "mcp_tool_call_end"@,
        kind != "dynamic_tool_call_request"@,
        kind != "dynamic_tool_call_response"@,
        kind != "exec_command_end"@,
    ensures
        ({
            let before = scan_of(rows, thread_id, path, preview_chars);
            let after = scan_of(rows.push(row), thread_id, path, preview_chars);
            &&& after.calls == before.calls
            &&& after.events == before.events
            &&& after.anonymous_events == before.anonymous_events
        }),
{
    lemma_scan_step(rows, row, thread_id, path, preview_chars);
}

// ---------------------------------------------------------------------------
// Executions
// ---------------------------------------------------------------------------

/// What an event knows of an execution comes before what the call knows, and the call fills in
/// what the event does not know. The lines of both are kept.
pub proof fn an_event_completes_its_call(call: ToolCall, event: Event)
    ensures
        ({
            let made = execution_of(call, Some(event));
            &&& event.command is Some ==> made.command == event.command
            &&& event.command is None ==> made.command == call.command
            &&& event.cwd is Some ==> made.cwd == event.cwd
            &&& event.cwd is None ==> made.cwd == call.cwd
            &&& event.status is Some ==> made.status == event.status
            &&& event.status is None ==> made.status == call.status
            &&& event.thread_id is Some ==> made.thread_id == event.thread_id
            &&& event.thread_id is None ==> made.thread_id == call.thread_id
            &&& event.timestamp is Some ==> made.timestamp == event.timestamp
            &&& event.timestamp is None ==> made.timestamp == call.timestamp
            &&& event.output_preview is Some ==> made.output_preview == event.output_preview
            &&& event.output_preview is None ==> made.output_preview == call.output_preview
            &&& event.output_bytes is Some ==> made.output_bytes == event.output_bytes
            &&& event.output_bytes is None ==> made.output_bytes == call.output_bytes
            &&& made.command_argv == event.command_argv
            &&& made.exit_code == event.exit_code
            &&& made.duration_ms == event.duration_ms
            &&& made.parsed_commands == event.parsed_commands
            &&& made.call_line == Some(call.call_line)
            &&& made.output_line == call.output_line
            &&& made.event_line == Some(event.event_line)
            &&& made.call_id == call.call_id
            &&& made.tool_name == call.tool_name
            &&& made.rollout_path == call.rollout_path
            &&& call.tool_name == "exec_command"@ ==> made.execution_kind == "shell"@
            &&& call.tool_name != "exec_command"@ ==> made.execution_kind == "tool"@
        }),
{
}

/// A call without an event is an execution of what the call knows, without an end.
pub proof fn a_call_alone_is_an_execution(call: ToolCall)
    ensures
        ({
            let made = execution_of(call, None);
            &&& made.command == call.command
            &&& made.cwd == call.cwd
            &&& made.status == call.status
            &&& made.thread_id == call.thread_id
            &&& made.timestamp == call.timestamp
            &&& made.output_preview == call.output_preview
            &&& made.output_bytes == call.output_bytes
            &&& made.command_argv is None
            &&& made.exit_code is None
            &&& made.duration_ms is None
            &&& made.parsed_commands.len() == 0
            &&& made.call_line == Some(call.call_line)
            &&& made.output_line == call.output_line
            &&& made.event_line is None
            &&& made.call_id == call.call_id
            &&& made.tool_name == call.tool_name
            &&& made.rollout_path == call.rollout_path
            &&& call.tool_name == "exec_command"@ ==> made.execution_kind == "shell"@
            &&& call.tool_name != "exec_command"@ ==> made.execution_kind == "tool"@
        }),
{
}

/// An event without a call is a shell execution of what the event knows.
pub proof fn an_event_alone_is_an_execution(event: Event)
    ensures
        ({
            let made = execution_of_event(event);
            &&& made.command == event.command
            &&& made.command_argv == event.command_argv
            &&& made.cwd == event.cwd
            &&& made.status == event.status
            &&& made.exit_code == event.exit_code
            &&& made.duration_ms == event.duration_ms
            &&& made.parsed_commands == event.parsed_commands
            &&& made.thread_id == event.thread_id
            &&& made.timestamp == event.timestamp
            &&& made.output_preview == event.output_preview
            &&& made.output_bytes == event.output_bytes
            &&& made.call_line is None
            &&& made.output_line is None
            &&& made.event_line == Some(event.event_line)
            &&& made.call_id == event.call_id
            &&& made.rollout_path == event.rollout_path
            &&& made.tool_name == "exec_command"@
            &&& made.execution_kind == "shell"@
        }),
{
}

/// Whether a tool is one of the three that run commands.
pub open spec fn is_command_tool(name: Seq<char>) -> bool {
    name == "exec_command"@ || name == "write_stdin"@ || name == "exec"@
}

/// A call of one of the three command tools is an execution, completed by an event with its
/// identity; a call of another tool is none.
pub proof fn command_tools_make_executions(scan: Scan, call: ToolCall)
    ensures
        !is_command_tool(call.tool_name) ==> call_execution(scan, call) is None,
        is_command_tool(call.tool_name) && (call.call_id is None || (forall|i: int|
            0 <= i < scan.events.len() ==> (#[trigger] scan.events[i]).call_id != call.call_id))
            ==> call_execution(scan, call) == Some(execution_of(call, None)),
        is_command_tool(call.tool_name) && call.call_id is Some && (exists|i: int|
            0 <= i < scan.events.len() && (#[trigger] scan.events[i]).call_id == call.call_id)
            ==> exists|i: int|
            0 <= i < scan.events.len() && (#[trigger] scan.events[i]).call_id == call.call_id
                && call_execution(scan, call) == Some(execution_of(call, Some(scan.events[i]))),
{
    if call.call_id is Some {
        an_event_is_found_by_identity(scan.events, call.call_id->0);
    }
}

/// An event is an execution of its own exactly where no call of a command tool has its
/// identity.
pub proof fn events_without_calls_make_executions(scan: Scan, event: Event)
    ensures
        (exists|i: int|
            0 <= i < scan.calls.len() && is_command_tool((#[trigger] scan.calls[i]).tool_name)
                && scan.calls[i].call_id == event.call_id) ==> event_execution(scan, event) is None,
        (forall|i: int|
            0 <= i < scan.calls.len() ==> !is_command_tool((#[trigger] scan.calls[i]).tool_name)
                || scan.calls[i].call_id != event.call_id) ==> event_execution(scan, event) == Some(
            execution_of_event(event),
        ),
{
}

/// Executions are listed with those of the calls first, then those of the events without a call,
/// then those of the anonymous events; each list keeps its order.
pub proof fn executions_are_listed_in_order(scan: Scan, event: Event)
    ensures
        ({
            let more = Scan { anonymous_events: scan.anonymous_events.push(event), ..scan };
            executions_of(more) == executions_of(scan).push(execution_of_event(event))
        }),
        scan.anonymous_events.len() == 0 && scan.events.len() == 0 ==> executions_of(scan)
            == scan.calls.filter_map(|call: ToolCall| call_execution(scan, call)),
        scan.anonymous_events.len() == 0 && scan.calls.len() == 0 ==> executions_of(scan)
            == scan.events.map_values(|event: Event| execution_of_event(event)),
{
    let more = Scan { anonymous_events: scan.anonymous_events.push(event), ..scan };
    let make = |event: Event| execution_of_event(event);
    let calls = scan.calls.filter_map(|call: ToolCall| call_execution(scan, call));
    let events = scan.events.filter_map(|event: Event| event_execution(scan, event));
    lemma_same_executions(scan, more);
    assert(executions_of(more) =~= calls + events + more.anonymous_events.map_values(make));
    assert(executions_of(more) =~= executions_of(scan).push(execution_of_event(event)));
    if scan.anonymous_events.len() == 0 && scan.events.len() == 0 {
        reveal_with_fuel(Seq::filter_map, 1);
        assert(events =~= Seq::empty());
        assert(executions_of(scan) =~= calls);
    }
    if scan.anonymous_events.len() == 0 && scan.calls.len() == 0 {
        reveal_with_fuel(Seq::filter_map, 1);
        assert(calls =~= Seq::empty());
        lemma_all_events(scan, scan.events);
        assert(executions_of(scan) =~= events);
    }
}

proof fn lemma_all_events(scan: Scan, events: Seq<Event>)
    requires
        scan.calls.len() == 0,
    ensures
        events.filter_map(|event: Event| event_execution(scan, event)) == events.map_values(
            |event: Event| execution_of_event(event),
        ),
    decreases events.len(),
{
    let take = |event: Event| event_execution(scan, event);
    let make = |event: Event| execution_of_event(event);
    if events.len() > 0 {
        let fewer = events.drop_last();
        lemma_all_events(scan, fewer);
        let n = events.len() - 1;
        lemma_filter_map_step(events, n, take);
        assert(events.take(n + 1) =~= events);
        assert(events.take(n) =~= fewer);
        assert(fewer.map_values(make).push(make(events[n])) =~= events.map_values(make));
    } else {
        reveal_with_fuel(Seq::filter_map, 1);
        assert(events.filter_map(take) =~= events.map_values(make));
    }
}

proof fn lemma_same_executions(a: Scan, b: Scan)
    requires
        a.calls == b.calls,
        a.events == b.events,
    ensures
        a.calls.filter_map(|call: ToolCall| call_execution(a, call)) == b.calls.filter_map(
            |call: ToolCall| call_execution(b, call),
        ),
        a.events.filter_map(|event: Event| event_execution(a, event)) == b.events.filter_map(
            |event: Event| event_execution(b, event),
        ),
{
    assert((|call: ToolCall| call_execution(a, call)) =~= (|call: ToolCall|
        call_execution(b, call)));
    assert((|event: Event| event_execution(a, event)) =~= (|event: Event|
        event_execution(b, event)));
}

// ---------------------------------------------------------------------------
// The summary
// ---------------------------------------------------------------------------

/// One more rollout adds its calls, its executions, its rows and its malformed rows, and as many
/// outputs as its calls have one to show.
pub proof fn rollouts_are_summed_up(rollouts: Seq<IndexedRollout>, rollout: IndexedRollout)
    ensures
        ({
            let more = rollouts.push(rollout);
            let index = rollout.index;
            &&& total_calls(more) == total_calls(rollouts) + index.tool_calls@.len()
            &&& total_executions(more) == total_executions(rollouts)
                + index.command_executions@.len()
            &&& total_rows(more) == total_rows(rollouts) + index.json_lines_read
            &&& total_malformed(more) == total_malformed(rollouts) + index.malformed_lines
            &&& total_previews(more) == total_previews(rollouts) + previews_in(index.tool_calls@)
        }),
        total_calls(Seq::empty()) == 0,
        total_executions(Seq::empty()) == 0,
        total_rows(Seq::empty()) == 0,
        total_malformed(Seq::empty()) == 0,
        total_previews(Seq::empty()) == 0,
{
    let more = rollouts.push(rollout);
    let n = rollouts.len() as int;
    assert(more.take(n) =~= rollouts);
    assert(more.take(n + 1) =~= more);
    lemma_total_step(more, n, |r: IndexedRollout| r.index.tool_calls@.len());
    lemma_total_step(more, n, |r: IndexedRollout| r.index.command_executions@.len());
    lemma_total_step(more, n, |r: IndexedRollout| previews_in(r.index.tool_calls@));
    lemma_total_step(more, n, |r: IndexedRollout| r.index.json_lines_read as nat);
    lemma_total_step(more, n, |r: IndexedRollout| r.index.malformed_lines as nat);
}

/// A call counts for the outputs where it has one to show.
pub proof fn shown_outputs_are_counted(calls: Seq<ToolCallRecord>, call: ToolCallRecord)
    ensures
        previews_in(Seq::empty()) == 0,
        call.output_preview is Some ==> previews_in(calls.push(call)) == previews_in(calls) + 1,
        call.output_preview is None ==> previews_in(calls.push(call)) == previews_in(calls),
{
    let shown = |call: ToolCallRecord| call.output_preview is Some;
    let more = calls.push(call);
    let n = calls.len() as int;
    assert(more.take(n) =~= calls);
    assert(more.take(n + 1) =~= more);
    lemma_filter_step(more, n, shown);
    reveal_with_fuel(Seq::filter, 1);
}

// ---------------------------------------------------------------------------
// The thread of a rollout file
// ---------------------------------------------------------------------------

/// A rollout file names its thread behind the time of its start, which takes twenty bytes.
pub proof fn a_rollout_file_names_its_thread(time: Seq<char>, id: Seq<char>)
    requires
        utf8_len(time) == 20,
        id.len() > 0,
    ensures
        rollout_thread("rollout-"@ + time + id + ".jsonl"@) == Some(id),
{
    let stem = time + id;
    let rest = stem + ".jsonl"@;
    let name = "rollout-"@ + time + id + ".jsonl"@;
    assert(name =~= "rollout-"@ + rest);
    assert("rollout-"@.is_prefix_of(name)) by {
        assert(name.subrange(0, "rollout-"@.len() as int) =~= "rollout-"@);
    }
    assert(name.skip("rollout-"@.len() as int) =~= rest);
    assert(".jsonl"@.is_suffix_of(rest)) by {
        assert(rest.subrange(rest.len() - ".jsonl"@.len(), rest.len() as int) =~= ".jsonl"@);
    }
    assert(rest.take(rest.len() - ".jsonl"@.len()) =~= stem);
    lemma_utf8_len_add(time, id);
    crate::text::lemma_utf8_len_positive(id);
    lemma_after_bytes(time, id);
}

proof fn lemma_after_bytes(head: Seq<char>, tail: Seq<char>)
    ensures
        crate::history::after_bytes(head + tail, utf8_len(head) as int) == tail,
    decreases head.len(),
{
    let s = head + tail;
    if head.len() == 0 {
        assert(utf8_len(head) == 0);
        assert(s =~= tail);
    } else {
        let one = head.take(1);
        let rest = head.drop_first();
        assert(one + rest =~= head);
        lemma_utf8_len_add(one, rest);
        crate::text::lemma_utf8_len_positive(one);
        lemma_after_bytes(rest, tail);
        assert(s.drop_first() =~= rest + tail);
        assert(s.take(1) =~= one);
    }
}

/// A file that does not begin and end so names no thread.
pub proof fn other_files_name_no_thread(name: Seq<char>)
    requires
        !"rollout-"@.is_prefix_of(name) || !".jsonl"@.is_suffix_of(name.skip(8)),
    ensures
        rollout_thread(name) is None,
{
    reveal_strlit("rollout-");
    assert("rollout-"@.len() == 8);
}

/// A command without words is none: the text of `cmd` takes its place.
pub proof fn no_words_are_no_command(m: Members, place: Place)
    requires
        m.contains_key("command"@),
        m["command"@] == JsonTree::Array(Seq::empty()),
    ensures
        event_of(JsonTree::Object(m), place).command_argv is None,
        is_text_of(event_of(JsonTree::Object(m), place).command, m, "cmd"@),
{
    reveal_with_fuel(Seq::filter_map, 1);
}

/// A rollout file whose name ends with the time of its start names no thread.
pub proof fn a_time_alone_names_no_thread(time: Seq<char>)
    requires
        utf8_len(time) <= 20,
    ensures
        rollout_thread("rollout-"@ + time + ".jsonl"@) is None,
{
    let rest = time + ".jsonl"@;
    let name = "rollout-"@ + time + ".jsonl"@;
    assert(name =~= "rollout-"@ + rest);
    assert(name.skip("rollout-"@.len() as int) =~= rest);
    assert(rest.take(rest.len() - ".jsonl"@.len()) =~= time);
}

} // verus!
