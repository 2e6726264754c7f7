//! The history index: tool calls and command executions recovered from rollout rows, so that
//! they can be looked up without replaying a session.
use vstd::prelude::*;

use crate::json::{parse, Json};
use crate::json::{
    json_of_text, json_text, number_signed, number_unsigned, opt_ref_tree, opt_tree, trees, JsonTree,
};
use crate::lists::{lemma_filter_map_step, lemma_filter_step, lemma_no_items, lemma_total_step, total};
use crate::text::{
    byte_len, chars_of, copy_list, copy_option, same_text, strip_prefix, strip_suffix, text_of,
};
use crate::text::{opt_view, utf8_len, views, without_prefix, without_suffix};

verus! {

// ---------------------------------------------------------------------------
// Texts
// ---------------------------------------------------------------------------

/// What `str::escape_debug` makes of a text.
pub uninterp spec fn debug_escaped(text: Seq<char>) -> Seq<char>;

/// `str::escape_debug`, collected: a function of the text alone; the escapes are left unsaid.
#[verifier::external_body]
fn escape_debug(text: &str) -> (r: String)
    ensures
        r@ == debug_escaped(text@),
{
    text.escape_debug().to_string()
}

/// How many characters of a text the index keeps by default.
pub const DEFAULT_PREVIEW_CHARS: usize = 4096;

/// A document as text: a text itself, or else its notation.
pub open spec fn value_text(tree: JsonTree) -> Seq<char> {
    match tree {
        JsonTree::Text(s) => s,
        other => json_text(other),
    }
}

/// An optional document as text.
pub open spec fn opt_value_text(tree: Option<JsonTree>) -> Seq<char> {
    match tree {
        Some(tree) => value_text(tree),
        None => Seq::empty(),
    }
}

/// The beginning of a text, marked where more follows; nothing of an empty one.
pub open spec fn preview(text: Seq<char>, limit: nat) -> Option<Seq<char>> {
    if text.len() == 0 {
        None
    } else if text.len() > limit {
        Some(text.take(limit as int) + "\n[truncated]"@)
    } else {
        Some(text)
    }
}

/// A preview holds at most the limit and a fixed mark.
pub proof fn previews_are_bounded(text: Seq<char>, limit: nat)
    ensures
        preview(text, limit) is Some ==> preview(text, limit)->0.len() <= limit + 12,
        text.len() <= limit && text.len() > 0 ==> preview(text, limit) == Some(text),
{
    reveal_strlit("\n[truncated]");
}

/// A document as text.
pub fn value_to_text(value: &Json) -> (r: String)
    ensures
        r@ == value_text(value@),
{
    match value {
        Json::Text(s) => s.clone(),
        other => other.render(),
    }
}

fn opt_value_to_text(value: Option<&Json>) -> (r: String)
    ensures
        r@ == opt_value_text(opt_ref_tree(value)),
{
    match value {
        Some(value) => value_to_text(value),
        None => {
            let out = String::new();
            proof {
                assert(out@ =~= Seq::<char>::empty());
            }
            out
        },
    }
}

/// The beginning of a text, marked where more follows, and the length of the text in bytes.
pub fn preview_text(text: &str, preview_chars: usize) -> (r: (Option<String>, usize))
    ensures
        opt_view(r.0) == preview(text@, preview_chars as nat),
        r.1 == utf8_len(text@),
{
    let bytes: usize = byte_len(text);
    if text.is_empty() {
        return (None, bytes);
    }
    let chars = chars_of(text);
    if chars.len() > preview_chars {
        let mut out = text_of(&chars, 0, preview_chars);
        proof {
            assert(chars@.subrange(0, preview_chars as int) =~= text@.take(preview_chars as int));
        }
        out.push_str("\n[truncated]");
        (Some(out), bytes)
    } else {
        (Some(text.to_owned()), bytes)
    }
}

// ---------------------------------------------------------------------------
// Records
// ---------------------------------------------------------------------------

/// A tool call of the index.
#[derive(Debug, PartialEq, Eq)]
pub struct ToolCallRecord {
    pub thread_id: Option<String>,
    pub timestamp: Option<String>,
    pub rollout_path: String,
    pub call_line: usize,
    pub output_line: Option<usize>,
    pub tool_kind: String,
    pub tool_name: String,
    pub call_id: Option<String>,
    pub status: Option<String>,
    pub command: Option<String>,
    pub cwd: Option<String>,
    pub arguments_preview: Option<String>,
    pub arguments_bytes: Option<usize>,
    pub output_preview: Option<String>,
    pub output_bytes: Option<usize>,
}

/// A tool call as a mathematical value.
#[verifier::ext_equal]
pub struct ToolCall {
    pub thread_id: Option<Seq<char>>,
    pub timestamp: Option<Seq<char>>,
    pub rollout_path: Seq<char>,
    pub call_line: usize,
    pub output_line: Option<usize>,
    pub tool_kind: Seq<char>,
    pub tool_name: Seq<char>,
    pub call_id: Option<Seq<char>>,
    pub status: Option<Seq<char>>,
    pub command: Option<Seq<char>>,
    pub cwd: Option<Seq<char>>,
    pub arguments_preview: Option<Seq<char>>,
    pub arguments_bytes: Option<nat>,
    pub output_preview: Option<Seq<char>>,
    pub output_bytes: Option<nat>,
}

/// A size as a mathematical value.
pub open spec fn opt_nat(n: Option<usize>) -> Option<nat> {
    match n {
        Some(n) => Some(n as nat),
        None => None,
    }
}

impl View for ToolCallRecord {
    type V = ToolCall;

    open spec fn view(&self) -> ToolCall {
        ToolCall {
            thread_id: opt_view(self.thread_id),
            timestamp: opt_view(self.timestamp),
            rollout_path: self.rollout_path@,
            call_line: self.call_line,
            output_line: self.output_line,
            tool_kind: self.tool_kind@,
            tool_name: self.tool_name@,
            call_id: opt_view(self.call_id),
            status: opt_view(self.status),
            command: opt_view(self.command),
            cwd: opt_view(self.cwd),
            arguments_preview: opt_view(self.arguments_preview),
            arguments_bytes: opt_nat(self.arguments_bytes),
            output_preview: opt_view(self.output_preview),
            output_bytes: opt_nat(self.output_bytes),
        }
    }
}

/// A command as an event took it apart.
#[derive(Debug, PartialEq, Eq)]
pub struct ParsedCommandRecord {
    pub kind: Option<String>,
    pub cmd: Option<String>,
    pub name: Option<String>,
    pub path: Option<String>,
}

/// A parsed command as a mathematical value.
#[verifier::ext_equal]
pub struct ParsedCommand {
    pub kind: Option<Seq<char>>,
    pub cmd: Option<Seq<char>>,
    pub name: Option<Seq<char>>,
    pub path: Option<Seq<char>>,
}

impl View for ParsedCommandRecord {
    type V = ParsedCommand;

    open spec fn view(&self) -> ParsedCommand {
        ParsedCommand {
            kind: opt_view(self.kind),
            cmd: opt_view(self.cmd),
            name: opt_view(self.name),
            path: opt_view(self.path),
        }
    }
}

/// The parsed commands that a list of records stands for.
pub open spec fn parsed_views(records: Seq<ParsedCommandRecord>) -> Seq<ParsedCommand> {
    records.map_values(|record: ParsedCommandRecord| record@)
}

/// The texts that an optional list of strings holds.
pub open spec fn opt_views(parts: Option<Vec<String>>) -> Option<Seq<Seq<char>>> {
    match parts {
        Some(parts) => Some(views(parts@)),
        None => None,
    }
}

/// The end of a command execution.
#[derive(Debug, PartialEq, Eq)]
pub struct ExecEvent {
    pub thread_id: Option<String>,
    pub timestamp: Option<String>,
    pub rollout_path: String,
    pub event_line: usize,
    pub call_id: Option<String>,
    pub command: Option<String>,
    pub command_argv: Option<Vec<String>>,
    pub cwd: Option<String>,
    pub status: Option<String>,
    pub exit_code: Option<i64>,
    pub duration_ms: Option<u64>,
    pub parsed_commands: Vec<ParsedCommandRecord>,
    pub output_preview: Option<String>,
    pub output_bytes: Option<usize>,
}

/// The end of a command execution as a mathematical value.
#[verifier::ext_equal]
pub struct Event {
    pub thread_id: Option<Seq<char>>,
    pub timestamp: Option<Seq<char>>,
    pub rollout_path: Seq<char>,
    pub event_line: usize,
    pub call_id: Option<Seq<char>>,
    pub command: Option<Seq<char>>,
    pub command_argv: Option<Seq<Seq<char>>>,
    pub cwd: Option<Seq<char>>,
    pub status: Option<Seq<char>>,
    pub exit_code: Option<i64>,
    pub duration_ms: Option<u64>,
    pub parsed_commands: Seq<ParsedCommand>,
    pub output_preview: Option<Seq<char>>,
    pub output_bytes: Option<nat>,
}

impl View for ExecEvent {
    type V = Event;

    open spec fn view(&self) -> Event {
        Event {
            thread_id: opt_view(self.thread_id),
            timestamp: opt_view(self.timestamp),
            rollout_path: self.rollout_path@,
            event_line: self.event_line,
            call_id: opt_view(self.call_id),
            command: opt_view(self.command),
            command_argv: opt_views(self.command_argv),
            cwd: opt_view(self.cwd),
            status: opt_view(self.status),
            exit_code: self.exit_code,
            duration_ms: self.duration_ms,
            parsed_commands: parsed_views(self.parsed_commands@),
            output_preview: opt_view(self.output_preview),
            output_bytes: opt_nat(self.output_bytes),
        }
    }
}

/// A command execution of the index.
#[derive(Debug, PartialEq, Eq)]
pub struct CommandExecutionRecord {
    pub thread_id: Option<String>,
    pub timestamp: Option<String>,
    pub rollout_path: String,
    pub call_line: Option<usize>,
    pub output_line: Option<usize>,
    pub event_line: Option<usize>,
    pub call_id: Option<String>,
    pub execution_kind: String,
    pub tool_name: String,
    pub command: Option<String>,
    pub command_argv: Option<Vec<String>>,
    pub cwd: Option<String>,
    pub status: Option<String>,
    pub exit_code: Option<i64>,
    pub duration_ms: Option<u64>,
    pub parsed_commands: Vec<ParsedCommandRecord>,
    pub output_preview: Option<String>,
    pub output_bytes: Option<usize>,
}

/// A command execution as a mathematical value.
#[verifier::ext_equal]
pub struct Execution {
    pub thread_id: Option<Seq<char>>,
    pub timestamp: Option<Seq<char>>,
    pub rollout_path: Seq<char>,
    pub call_line: Option<usize>,
    pub output_line: Option<usize>,
    pub event_line: Option<usize>,
    pub call_id: Option<Seq<char>>,
    pub execution_kind: Seq<char>,
    pub tool_name: Seq<char>,
    pub command: Option<Seq<char>>,
    pub command_argv: Option<Seq<Seq<char>>>,
    pub cwd: Option<Seq<char>>,
    pub status: Option<Seq<char>>,
    pub exit_code: Option<i64>,
    pub duration_ms: Option<u64>,
    pub parsed_commands: Seq<ParsedCommand>,
    pub output_preview: Option<Seq<char>>,
    pub output_bytes: Option<nat>,
}

impl View for CommandExecutionRecord {
    type V = Execution;

    open spec fn view(&self) -> Execution {
        Execution {
            thread_id: opt_view(self.thread_id),
            timestamp: opt_view(self.timestamp),
            rollout_path: self.rollout_path@,
            call_line: self.call_line,
            output_line: self.output_line,
            event_line: self.event_line,
            call_id: opt_view(self.call_id),
            execution_kind: self.execution_kind@,
            tool_name: self.tool_name@,
            command: opt_view(self.command),
            command_argv: opt_views(self.command_argv),
            cwd: opt_view(self.cwd),
            status: opt_view(self.status),
            exit_code: self.exit_code,
            duration_ms: self.duration_ms,
            parsed_commands: parsed_views(self.parsed_commands@),
            output_preview: opt_view(self.output_preview),
            output_bytes: opt_nat(self.output_bytes),
        }
    }
}

// ---------------------------------------------------------------------------
// Tool calls
// ---------------------------------------------------------------------------

/// Where a row stands, and in which session.
pub struct RowPlace {
    pub rollout_path: String,
    pub line: usize,
    pub thread_id: Option<String>,
    pub timestamp: Option<String>,
    pub preview_chars: usize,
}

/// The place of a row as a mathematical value.
#[verifier::ext_equal]
pub struct Place {
    pub rollout_path: Seq<char>,
    pub line: usize,
    pub thread_id: Option<Seq<char>>,
    pub timestamp: Option<Seq<char>>,
    pub preview_chars: usize,
}

impl View for RowPlace {
    type V = Place;

    open spec fn view(&self) -> Place {
        Place {
            rollout_path: self.rollout_path@,
            line: self.line,
            thread_id: opt_view(self.thread_id),
            timestamp: opt_view(self.timestamp),
            preview_chars: self.preview_chars,
        }
    }
}

/// The arguments of a call as a document: read from a text, or an object itself.
pub open spec fn parsed_arguments(arguments: Option<JsonTree>) -> Option<JsonTree> {
    match arguments {
        Some(JsonTree::Text(s)) => json_of_text(s),
        Some(JsonTree::Object(m)) => Some(JsonTree::Object(m)),
        _ => None,
    }
}

/// The text of a member of an optional document.
pub open spec fn text_in(tree: Option<JsonTree>, key: Seq<char>) -> Option<Seq<char>> {
    match tree {
        Some(tree) => tree.text_at(key),
        None => None,
    }
}

/// The command that a call runs.
pub open spec fn command_of(name: Seq<char>, args: Option<JsonTree>, raw: Seq<char>) -> Option<
    Seq<char>,
> {
    if name == "exec_command"@ {
        text_in(args, "cmd"@)
    } else if name == "write_stdin"@ {
        match text_in(args, "chars"@) {
            Some(chars) => Some("stdin: "@ + debug_escaped(chars)),
            None => None,
        }
    } else if name == "exec"@ {
        Some(raw)
    } else {
        None
    }
}

/// The working directory of a call: `workdir` where there is such a member, or else `cwd`.
pub open spec fn cwd_of(args: Option<JsonTree>) -> Option<Seq<char>> {
    match args {
        Some(args) => match args.get("workdir"@) {
            Some(dir) => dir.text(),
            None => args.text_at("cwd"@),
        },
        None => None,
    }
}

/// Whether a tool runs commands.
pub open spec fn runs_commands(name: Seq<char>) -> bool {
    name == "exec_command"@ || name == "write_stdin"@ || name == "exec"@
}

/// The record of a call.
pub open spec fn call_record(
    place: Place,
    kind: Seq<char>,
    name: Seq<char>,
    call_id: Option<Seq<char>>,
    status: Option<Seq<char>>,
    arguments: Option<JsonTree>,
) -> ToolCall {
    let raw = opt_value_text(arguments);
    let args = parsed_arguments(arguments);
    ToolCall {
        thread_id: place.thread_id,
        timestamp: place.timestamp,
        rollout_path: place.rollout_path,
        call_line: place.line,
        output_line: None,
        tool_kind: kind,
        tool_name: name,
        call_id,
        status,
        command: command_of(name, args, raw),
        cwd: cwd_of(args),
        arguments_preview: preview(raw, place.preview_chars as nat),
        arguments_bytes: Some(utf8_len(raw)),
        output_preview: None,
        output_bytes: None,
    }
}

/// A call with its output.
pub open spec fn with_output(call: ToolCall, line: usize, output: Seq<char>, limit: nat) -> ToolCall {
    ToolCall {
        output_line: Some(line),
        output_preview: preview(output, limit),
        output_bytes: Some(utf8_len(output)),
        ..call
    }
}

/// The call that a row of a function call or a custom tool call makes, where it has a name.
pub open spec fn tool_call_of(payload: JsonTree, kind: Seq<char>, place: Place) -> Option<
    ToolCall,
> {
    match payload.text_at("name"@) {
        Some(name) => Some(
            call_record(
                place,
                if kind == "function_call"@ {
                    "function"@
                } else {
                    "custom"@
                },
                name,
                payload.text_at("call_id"@),
                payload.text_at("status"@),
                if kind == "function_call"@ {
                    payload.get("arguments"@)
                } else {
                    payload.get("input"@)
                },
            ),
        ),
        None => None,
    }
}

/// The name of a tool with the name of what offers it before it.
pub open spec fn qualified(space: Option<Seq<char>>, tool: Seq<char>) -> Seq<char> {
    match space {
        Some(space) => space.push('.') + tool,
        None => tool,
    }
}

/// The call that the end of a tool call of a server makes: with its output, and completed
/// where it has a result.
pub open spec fn server_call_of(payload: JsonTree, place: Place) -> Option<ToolCall> {
    match payload.get("invocation"@) {
        Some(invocation) => match invocation.text_at("tool"@) {
            Some(tool) => {
                let done = payload.get_in("result"@, "Ok"@);
                let status = match payload.text_at("status"@) {
                    Some(status) => Some(status),
                    None => if done is Some {
                        Some("completed"@)
                    } else {
                        None
                    },
                };
                let output = if done is Some {
                    done
                } else {
                    payload.get("result"@)
                };
                Some(
                    with_output(
                        call_record(
                            place,
                            "mcp"@,
                            qualified(invocation.text_at("server"@), tool),
                            payload.text_at("call_id"@),
                            status,
                            invocation.get("arguments"@),
                        ),
                        place.line,
                        opt_value_text(output),
                        place.preview_chars as nat,
                    ),
                )
            },
            None => None,
        },
        None => None,
    }
}

/// The call id of a dynamic tool call, which is written in two ways.
pub open spec fn dynamic_id(payload: JsonTree) -> Option<Seq<char>> {
    match payload.text_at("call_id"@) {
        Some(id) => Some(id),
        None => payload.text_at("callId"@),
    }
}

/// The call that the request of a dynamic tool call makes.
pub open spec fn dynamic_call_of(payload: JsonTree, place: Place) -> Option<ToolCall> {
    match payload.text_at("tool"@) {
        Some(tool) => Some(
            call_record(
                place,
                "dynamic"@,
                qualified(payload.text_at("namespace"@), tool),
                dynamic_id(payload),
                payload.text_at("status"@),
                payload.get("arguments"@),
            ),
        ),
        None => None,
    }
}

fn copy_text(s: Option<&String>) -> (r: Option<String>)
    ensures
        opt_view(r) == (match s {
            Some(s) => Some(s@),
            None => None,
        }),
{
    match s {
        Some(s) => Some(s.clone()),
        None => None,
    }
}

/// The arguments of a call as a document.
pub fn parse_argument_value(value: Option<&Json>) -> (r: Option<Json>)
    ensures
        opt_tree(r) == parsed_arguments(opt_ref_tree(value)),
{
    match value {
        Some(Json::Text(s)) => parse(s.as_str()),
        Some(Json::Object(o)) => Some(Json::Object(o.copy())),
        _ => None,
    }
}

fn text_member(value: &Option<Json>, key: &str) -> (r: Option<String>)
    ensures
        opt_view(r) == text_in(opt_tree(*value), key@),
{
    match value {
        Some(value) => copy_text(value.text_at(key)),
        None => None,
    }
}

/// The command that a call runs.
pub fn extract_command(tool_name: &str, parsed_args: &Option<Json>, raw_arguments: &str) -> (r:
    Option<String>)
    ensures
        opt_view(r) == command_of(tool_name@, opt_tree(*parsed_args), raw_arguments@),
{
    if same_text(tool_name, "exec_command") {
        return text_member(parsed_args, "cmd");
    }
    if same_text(tool_name, "write_stdin") {
        return match text_member(parsed_args, "chars") {
            Some(chars) => {
                let mut out = "stdin: ".to_owned();
                let escaped = escape_debug(chars.as_str());
                out.push_str(escaped.as_str());
                Some(out)
            },
            None => None,
        };
    }
    if same_text(tool_name, "exec") {
        Some(raw_arguments.to_owned())
    } else {
        None
    }
}

fn extract_cwd(args: &Option<Json>) -> (r: Option<String>)
    ensures
        opt_view(r) == cwd_of(opt_tree(*args)),
{
    match args {
        Some(args) => match args.get("workdir") {
            Some(dir) => copy_text(dir.as_str()),
            None => copy_text(args.text_at("cwd")),
        },
        None => None,
    }
}

/// Whether a tool runs commands.
pub fn is_execution_tool(tool_name: &str) -> (r: bool)
    ensures
        r == runs_commands(tool_name@),
{
    same_text(tool_name, "exec_command") || same_text(tool_name, "write_stdin") || same_text(
        tool_name,
        "exec",
    )
}

fn make_call(
    place: &RowPlace,
    kind: &str,
    name: String,
    call_id: Option<String>,
    status: Option<String>,
    arguments: Option<&Json>,
) -> (r: ToolCallRecord)
    ensures
        r@ == call_record(
            place@,
            kind@,
            name@,
            opt_view(call_id),
            opt_view(status),
            opt_ref_tree(arguments),
        ),
{
    let raw = opt_value_to_text(arguments);
    let args = parse_argument_value(arguments);
    let (arguments_preview, arguments_bytes) = preview_text(raw.as_str(), place.preview_chars);
    let command = extract_command(name.as_str(), &args, raw.as_str());
    let cwd = extract_cwd(&args);
    ToolCallRecord {
        thread_id: copy_option(&place.thread_id),
        timestamp: copy_option(&place.timestamp),
        rollout_path: place.rollout_path.clone(),
        call_line: place.line,
        output_line: None,
        tool_kind: kind.to_owned(),
        tool_name: name,
        call_id,
        status,
        command,
        cwd,
        arguments_preview,
        arguments_bytes: Some(arguments_bytes),
        output_preview: None,
        output_bytes: None,
    }
}

/// The call that a row of a function call or a custom tool call makes; `None` without a name.
pub fn parse_tool_call(payload: &Json, payload_type: &str, place: &RowPlace) -> (r: Option<
    ToolCallRecord,
>)
    ensures
        match r {
            Some(call) => tool_call_of(payload@, payload_type@, place@) == Some(call@),
            None => tool_call_of(payload@, payload_type@, place@) is None,
        },
{
    let name = match payload.text_at("name") {
        Some(name) => name.clone(),
        None => {
            return None;
        },
    };
    let call_id = copy_text(payload.text_at("call_id"));
    let status = copy_text(payload.text_at("status"));
    if same_text(payload_type, "function_call") {
        Some(make_call(place, "function", name, call_id, status, payload.get("arguments")))
    } else {
        Some(make_call(place, "custom", name, call_id, status, payload.get("input")))
    }
}

fn qualify(space: Option<&String>, tool: &str) -> (r: String)
    ensures
        r@ == qualified(
            match space {
                Some(s) => Some(s@),
                None => None,
            },
            tool@,
        ),
{
    match space {
        Some(space) => {
            let mut out = space.clone();
            out.push('.');
            out.push_str(tool);
            out
        },
        None => tool.to_owned(),
    }
}

fn set_output(call: &mut ToolCallRecord, line: usize, output: &str, preview_chars: usize)
    ensures
        final(call)@ == with_output(old(call)@, line, output@, preview_chars as nat),
{
    let (shown, bytes) = preview_text(output, preview_chars);
    call.output_line = Some(line);
    call.output_preview = shown;
    call.output_bytes = Some(bytes);
}

/// The call that the end of a tool call of a server makes.
pub fn parse_server_call(payload: &Json, place: &RowPlace) -> (r: Option<ToolCallRecord>)
    ensures
        match r {
            Some(call) => server_call_of(payload@, place@) == Some(call@),
            None => server_call_of(payload@, place@) is None,
        },
{
    let invocation = match payload.get("invocation") {
        Some(invocation) => invocation,
        None => {
            return None;
        },
    };
    let tool = match invocation.text_at("tool") {
        Some(tool) => tool,
        None => {
            return None;
        },
    };
    let done = payload.get_in("result", "Ok");
    let status = match payload.text_at("status") {
        Some(status) => Some(status.clone()),
        None => {
            if done.is_some() {
                Some("completed".to_owned())
            } else {
                None
            }
        },
    };
    let output = match done {
        Some(value) => value_to_text(value),
        None => opt_value_to_text(payload.get("result")),
    };
    let name = qualify(invocation.text_at("server"), tool.as_str());
    let mut call = make_call(
        place,
        "mcp",
        name,
        copy_text(payload.text_at("call_id")),
        status,
        invocation.get("arguments"),
    );
    set_output(&mut call, place.line, output.as_str(), place.preview_chars);
    Some(call)
}

fn find_dynamic_id(payload: &Json) -> (r: Option<String>)
    ensures
        opt_view(r) == dynamic_id(payload@),
{
    match payload.text_at("call_id") {
        Some(id) => Some(id.clone()),
        None => copy_text(payload.text_at("callId")),
    }
}

/// The call that the request of a dynamic tool call makes.
pub fn parse_dynamic_call(payload: &Json, place: &RowPlace) -> (r: Option<ToolCallRecord>)
    ensures
        match r {
            Some(call) => dynamic_call_of(payload@, place@) == Some(call@),
            None => dynamic_call_of(payload@, place@) is None,
        },
{
    let tool = match payload.text_at("tool") {
        Some(tool) => tool,
        None => {
            return None;
        },
    };
    let name = qualify(payload.text_at("namespace"), tool.as_str());
    Some(
        make_call(
            place,
            "dynamic",
            name,
            find_dynamic_id(payload),
            copy_text(payload.text_at("status")),
            payload.get("arguments"),
        ),
    )
}

// ---------------------------------------------------------------------------
// Events
// ---------------------------------------------------------------------------

/// The texts among the items of a document.
pub open spec fn texts_in(tree: Option<JsonTree>) -> Option<Seq<Seq<char>>> {
    match tree {
        Some(JsonTree::Array(items)) => Some(items.filter_map(|item: JsonTree| item.text())),
        _ => None,
    }
}

/// The words of the command that an event names, where there are any.
pub open spec fn argv_of(payload: JsonTree) -> Option<Seq<Seq<char>>> {
    match texts_in(payload.get("command"@)) {
        Some(words) => if words.len() > 0 {
            Some(words)
        } else {
            None
        },
        None => None,
    }
}

/// The output that an event carries: the first of four members that is there.
pub open spec fn event_output(payload: JsonTree) -> Option<JsonTree> {
    if payload.get("aggregated_output"@) is Some {
        payload.get("aggregated_output"@)
    } else if payload.get("formatted_output"@) is Some {
        payload.get("formatted_output"@)
    } else if payload.get("stdout"@) is Some {
        payload.get("stdout"@)
    } else {
        payload.get("stderr"@)
    }
}

/// An unsigned integer of a member, or else nothing.
pub open spec fn unsigned_at(tree: JsonTree, key: Seq<char>) -> Option<u64> {
    match tree.get(key) {
        Some(JsonTree::Number(n)) => number_unsigned(n),
        _ => None,
    }
}

/// The number of an optional integer, 0 where there is none.
pub open spec fn or_zero(n: Option<u64>) -> int {
    match n {
        Some(n) => n as int,
        None => 0,
    }
}

/// A duration in milliseconds: as given, or made of seconds and nanoseconds up to the
/// greatest number.
pub open spec fn milliseconds(duration: Option<JsonTree>) -> Option<u64> {
    match duration {
        Some(d) => match unsigned_at(d, "millis"@) {
            Some(ms) => Some(ms),
            None => {
                let sum = or_zero(unsigned_at(d, "secs"@)) * 1000 + or_zero(
                    unsigned_at(d, "nanos"@),
                ) / 1000000;
                Some(
                    if sum <= u64::MAX {
                        sum as u64
                    } else {
                        u64::MAX
                    },
                )
            },
        },
        None => None,
    }
}

/// A parsed command of an event.
pub open spec fn parsed_command(item: JsonTree) -> ParsedCommand {
    ParsedCommand {
        kind: item.text_at("type"@),
        cmd: item.text_at("cmd"@),
        name: item.text_at("name"@),
        path: item.text_at("path"@),
    }
}

/// The parsed commands of an event.
pub open spec fn parsed_commands(tree: Option<JsonTree>) -> Seq<ParsedCommand> {
    match tree {
        Some(JsonTree::Array(items)) => items.map_values(|item: JsonTree| parsed_command(item)),
        _ => Seq::empty(),
    }
}

/// The event that a row makes.
pub open spec fn event_of(payload: JsonTree, place: Place) -> Event {
    let output = opt_value_text(event_output(payload));
    Event {
        thread_id: place.thread_id,
        timestamp: place.timestamp,
        rollout_path: place.rollout_path,
        event_line: place.line,
        call_id: payload.text_at("call_id"@),
        command: match argv_of(payload) {
            Some(words) => Some(words.last()),
            None => payload.text_at("cmd"@),
        },
        command_argv: argv_of(payload),
        cwd: payload.text_at("cwd"@),
        status: payload.text_at("status"@),
        exit_code: match payload.get("exit_code"@) {
            Some(JsonTree::Number(n)) => number_signed(n),
            _ => None,
        },
        duration_ms: milliseconds(payload.get("duration"@)),
        parsed_commands: parsed_commands(payload.get("parsed_cmd"@)),
        output_preview: preview(output, place.preview_chars as nat),
        output_bytes: Some(utf8_len(output)),
    }
}

fn collect_texts(value: Option<&Json>) -> (r: Option<Vec<String>>)
    ensures
        opt_views(r) == texts_in(opt_ref_tree(value)),
{
    let items = match value {
        Some(value) => match value.as_array() {
            Some(items) => items,
            None => {
                return None;
            },
        },
        None => {
            return None;
        },
    };
    let ghost all = trees(items@);
    let ghost text = |item: JsonTree| item.text();
    let mut out: Vec<String> = Vec::new();
    let mut i: usize = 0;
    proof {
        lemma_no_items(all);
        reveal_with_fuel(Seq::filter_map, 1);
        assert(views(out@) =~= all.take(0).filter_map(text));
    }
    while i < items.len()
        invariant
            all == trees(items@),
            text == (|item: JsonTree| item.text()),
            i <= items@.len(),
            views(out@) == all.take(i as int).filter_map(text),
        decreases items@.len() - i,
    {
        proof {
            assert(all[i as int] == items@[i as int]@);
            lemma_filter_map_step(all, i as int, text);
        }
        let ghost before = views(out@);
        if let Some(word) = items[i].as_str() {
            out.push(word.clone());
            proof {
                assert(views(out@) =~= before.push(word@));
            }
        }
        i += 1;
    }
    Some(out)
}

fn read_unsigned(value: &Json, key: &str) -> (r: Option<u64>)
    ensures
        r == unsigned_at(value@, key@),
{
    match value.get(key) {
        Some(n) => n.as_u64(),
        None => None,
    }
}

/// A duration in milliseconds.
pub fn duration_ms(value: Option<&Json>) -> (r: Option<u64>)
    ensures
        r == milliseconds(opt_ref_tree(value)),
{
    let duration = match value {
        Some(duration) => duration,
        None => {
            return None;
        },
    };
    if let Some(ms) = read_unsigned(duration, "millis") {
        return Some(ms);
    }
    let secs: u64 = match read_unsigned(duration, "secs") {
        Some(secs) => secs,
        None => 0,
    };
    let nanos: u64 = match read_unsigned(duration, "nanos") {
        Some(nanos) => nanos,
        None => 0,
    };
    let sum: u128 = (secs as u128) * 1000 + (nanos / 1000000) as u128;
    if sum <= 0xffff_ffff_ffff_ffff {
        Some(sum as u64)
    } else {
        Some(u64::MAX)
    }
}

/// The parsed commands of an event.
pub fn parse_parsed_commands(value: Option<&Json>) -> (r: Vec<ParsedCommandRecord>)
    ensures
        parsed_views(r@) == parsed_commands(opt_ref_tree(value)),
{
    let mut out: Vec<ParsedCommandRecord> = Vec::new();
    let items = match value {
        Some(value) => match value.as_array() {
            Some(items) => items,
            None => {
                proof {
                    assert(parsed_views(out@) =~= Seq::<ParsedCommand>::empty());
                }
                return out;
            },
        },
        None => {
            proof {
                assert(parsed_views(out@) =~= Seq::<ParsedCommand>::empty());
            }
            return out;
        },
    };
    let mut i: usize = 0;
    while i < items.len()
        invariant
            i <= items@.len(),
            out@.len() == i,
            forall|j: int| 0 <= j < i ==> (#[trigger] out@[j])@ == parsed_command(items@[j]@),
        decreases items@.len() - i,
    {
        let item = &items[i];
        out.push(
            ParsedCommandRecord {
                kind: copy_text(item.text_at("type")),
                cmd: copy_text(item.text_at("cmd")),
                name: copy_text(item.text_at("name")),
                path: copy_text(item.text_at("path")),
            },
        );
        i += 1;
    }
    proof {
        assert(parsed_views(out@) =~= trees(items@).map_values(
            |item: JsonTree| parsed_command(item),
        ));
    }
    out
}

fn find_event_output(payload: &Json) -> (r: Option<&Json>)
    ensures
        opt_ref_tree(r) == event_output(payload@),
{
    if let Some(value) = payload.get("aggregated_output") {
        return Some(value);
    }
    if let Some(value) = payload.get("formatted_output") {
        return Some(value);
    }
    if let Some(value) = payload.get("stdout") {
        return Some(value);
    }
    payload.get("stderr")
}

/// The event that a row makes.
pub fn parse_exec_event(payload: &Json, place: &RowPlace) -> (r: ExecEvent)
    ensures
        r@ == event_of(payload@, place@),
{
    let command_argv = match collect_texts(payload.get("command")) {
        Some(words) => {
            if words.len() > 0 {
                Some(words)
            } else {
                None
            }
        },
        None => None,
    };
    let command = match &command_argv {
        Some(words) => {
            proof {
                assert(views(words@).last() == words@[words@.len() - 1]@);
            }
            Some(words[words.len() - 1].clone())
        },
        None => copy_text(payload.text_at("cmd")),
    };
    let output = opt_value_to_text(find_event_output(payload));
    let (output_preview, output_bytes) = preview_text(output.as_str(), place.preview_chars);
    let exit_code = match payload.get("exit_code") {
        Some(code) => code.as_i64(),
        None => None,
    };
    ExecEvent {
        thread_id: copy_option(&place.thread_id),
        timestamp: copy_option(&place.timestamp),
        rollout_path: place.rollout_path.clone(),
        event_line: place.line,
        call_id: copy_text(payload.text_at("call_id")),
        command,
        command_argv,
        cwd: copy_text(payload.text_at("cwd")),
        status: copy_text(payload.text_at("status")),
        exit_code,
        duration_ms: duration_ms(payload.get("duration")),
        parsed_commands: parse_parsed_commands(payload.get("parsed_cmd")),
        output_preview,
        output_bytes: Some(output_bytes),
    }
}

// ---------------------------------------------------------------------------
// Command executions
// ---------------------------------------------------------------------------

/// The first of two optional texts that is there.
pub open spec fn first_of<T>(a: Option<T>, b: Option<T>) -> Option<T> {
    if a is Some {
        a
    } else {
        b
    }
}

/// The execution that a call alone makes.
pub open spec fn execution_of_call(call: ToolCall) -> Execution {
    Execution {
        thread_id: call.thread_id,
        timestamp: call.timestamp,
        rollout_path: call.rollout_path,
        call_line: Some(call.call_line),
        output_line: call.output_line,
        event_line: None,
        call_id: call.call_id,
        execution_kind: if call.tool_name == "exec_command"@ {
            "shell"@
        } else {
            "tool"@
        },
        tool_name: call.tool_name,
        command: call.command,
        command_argv: None,
        cwd: call.cwd,
        status: call.status,
        exit_code: None,
        duration_ms: None,
        parsed_commands: Seq::empty(),
        output_preview: call.output_preview,
        output_bytes: call.output_bytes,
    }
}

/// The execution of a call with what its event tells.
pub open spec fn execution_of(call: ToolCall, event: Option<Event>) -> Execution {
    let alone = execution_of_call(call);
    match event {
        Some(event) => Execution {
            thread_id: first_of(event.thread_id, alone.thread_id),
            timestamp: first_of(event.timestamp, alone.timestamp),
            event_line: Some(event.event_line),
            command: first_of(event.command, alone.command),
            command_argv: event.command_argv,
            cwd: first_of(event.cwd, alone.cwd),
            status: first_of(event.status, alone.status),
            exit_code: event.exit_code,
            duration_ms: event.duration_ms,
            parsed_commands: event.parsed_commands,
            output_preview: first_of(event.output_preview, alone.output_preview),
            output_bytes: first_of(event.output_bytes, alone.output_bytes),
            ..alone
        },
        None => alone,
    }
}

/// The execution that an event alone makes.
pub open spec fn execution_of_event(event: Event) -> Execution {
    Execution {
        thread_id: event.thread_id,
        timestamp: event.timestamp,
        rollout_path: event.rollout_path,
        call_line: None,
        output_line: None,
        event_line: Some(event.event_line),
        call_id: event.call_id,
        execution_kind: "shell"@,
        tool_name: "exec_command"@,
        command: event.command,
        command_argv: event.command_argv,
        cwd: event.cwd,
        status: event.status,
        exit_code: event.exit_code,
        duration_ms: event.duration_ms,
        parsed_commands: event.parsed_commands,
        output_preview: event.output_preview,
        output_bytes: event.output_bytes,
    }
}

fn prefer(a: &Option<String>, b: &Option<String>) -> (r: Option<String>)
    ensures
        opt_view(r) == first_of(opt_view(*a), opt_view(*b)),
{
    match a {
        Some(a) => Some(a.clone()),
        None => copy_option(b),
    }
}

fn copy_opt_list(parts: &Option<Vec<String>>) -> (r: Option<Vec<String>>)
    ensures
        opt_views(r) == opt_views(*parts),
{
    match parts {
        Some(parts) => Some(copy_list(parts)),
        None => None,
    }
}

fn copy_parsed(records: &Vec<ParsedCommandRecord>) -> (r: Vec<ParsedCommandRecord>)
    ensures
        parsed_views(r@) == parsed_views(records@),
{
    let mut out: Vec<ParsedCommandRecord> = Vec::new();
    let mut i: usize = 0;
    while i < records.len()
        invariant
            i <= records@.len(),
            out@.len() == i,
            forall|j: int| 0 <= j < i ==> (#[trigger] out@[j])@ == records@[j]@,
        decreases records@.len() - i,
    {
        out.push(
            ParsedCommandRecord {
                kind: copy_option(&records[i].kind),
                cmd: copy_option(&records[i].cmd),
                name: copy_option(&records[i].name),
                path: copy_option(&records[i].path),
            },
        );
        i += 1;
    }
    proof {
        assert(parsed_views(out@) =~= parsed_views(records@));
    }
    out
}

/// The execution of a call, with what its event tells where there is one.
pub fn command_execution_for_call(call: &ToolCallRecord, event: Option<&ExecEvent>) -> (r:
    CommandExecutionRecord)
    ensures
        r@ == execution_of(
            call@,
            match event {
                Some(event) => Some(event@),
                None => None,
            },
        ),
{
    let execution_kind = if same_text(call.tool_name.as_str(), "exec_command") {
        "shell".to_owned()
    } else {
        "tool".to_owned()
    };
    match event {
        Some(event) => {
            let output_bytes = match event.output_bytes {
                Some(bytes) => Some(bytes),
                None => call.output_bytes,
            };
            CommandExecutionRecord {
                thread_id: prefer(&event.thread_id, &call.thread_id),
                timestamp: prefer(&event.timestamp, &call.timestamp),
                rollout_path: call.rollout_path.clone(),
                call_line: Some(call.call_line),
                output_line: call.output_line,
                event_line: Some(event.event_line),
                call_id: copy_option(&call.call_id),
                execution_kind,
                tool_name: call.tool_name.clone(),
                command: prefer(&event.command, &call.command),
                command_argv: copy_opt_list(&event.command_argv),
                cwd: prefer(&event.cwd, &call.cwd),
                status: prefer(&event.status, &call.status),
                exit_code: event.exit_code,
                duration_ms: event.duration_ms,
                parsed_commands: copy_parsed(&event.parsed_commands),
                output_preview: prefer(&event.output_preview, &call.output_preview),
                output_bytes,
            }
        },
        None => {
            let parsed_commands: Vec<ParsedCommandRecord> = Vec::new();
            proof {
                assert(parsed_views(parsed_commands@) =~= Seq::<ParsedCommand>::empty());
            }
            CommandExecutionRecord {
                thread_id: copy_option(&call.thread_id),
                timestamp: copy_option(&call.timestamp),
                rollout_path: call.rollout_path.clone(),
                call_line: Some(call.call_line),
                output_line: call.output_line,
                event_line: None,
                call_id: copy_option(&call.call_id),
                execution_kind,
                tool_name: call.tool_name.clone(),
                command: copy_option(&call.command),
                command_argv: None,
                cwd: copy_option(&call.cwd),
                status: copy_option(&call.status),
                exit_code: None,
                duration_ms: None,
                parsed_commands,
                output_preview: copy_option(&call.output_preview),
                output_bytes: call.output_bytes,
            }
        },
    }
}

/// The execution that an event without a call makes.
pub fn command_execution_for_event(event: &ExecEvent) -> (r: CommandExecutionRecord)
    ensures
        r@ == execution_of_event(event@),
{
    CommandExecutionRecord {
        thread_id: copy_option(&event.thread_id),
        timestamp: copy_option(&event.timestamp),
        rollout_path: event.rollout_path.clone(),
        call_line: None,
        output_line: None,
        event_line: Some(event.event_line),
        call_id: copy_option(&event.call_id),
        execution_kind: "shell".to_owned(),
        tool_name: "exec_command".to_owned(),
        command: copy_option(&event.command),
        command_argv: copy_opt_list(&event.command_argv),
        cwd: copy_option(&event.cwd),
        status: copy_option(&event.status),
        exit_code: event.exit_code,
        duration_ms: event.duration_ms,
        parsed_commands: copy_parsed(&event.parsed_commands),
        output_preview: copy_option(&event.output_preview),
        output_bytes: event.output_bytes,
    }
}

// ---------------------------------------------------------------------------
// Scanning a rollout
// ---------------------------------------------------------------------------

/// What has been found in the rows of a rollout so far.
pub struct RolloutScan {
    pub thread_id: Option<String>,
    pub calls: Vec<ToolCallRecord>,
    pub events: Vec<ExecEvent>,
    pub anonymous_events: Vec<ExecEvent>,
    pub json_lines_read: usize,
    pub malformed_lines: usize,
}

/// What has been found so far as a mathematical value.
#[verifier::ext_equal]
pub struct Scan {
    pub thread_id: Option<Seq<char>>,
    pub calls: Seq<ToolCall>,
    pub events: Seq<Event>,
    pub anonymous_events: Seq<Event>,
    pub json_lines_read: nat,
    pub malformed_lines: nat,
}

/// The calls that a list of records stands for.
pub open spec fn call_views(records: Seq<ToolCallRecord>) -> Seq<ToolCall> {
    records.map_values(|record: ToolCallRecord| record@)
}

/// The events that a list of records stands for.
pub open spec fn event_views(records: Seq<ExecEvent>) -> Seq<Event> {
    records.map_values(|record: ExecEvent| record@)
}

/// The executions that a list of records stands for.
pub open spec fn execution_views(records: Seq<CommandExecutionRecord>) -> Seq<Execution> {
    records.map_values(|record: CommandExecutionRecord| record@)
}

impl View for RolloutScan {
    type V = Scan;

    open spec fn view(&self) -> Scan {
        Scan {
            thread_id: opt_view(self.thread_id),
            calls: call_views(self.calls@),
            events: event_views(self.events@),
            anonymous_events: event_views(self.anonymous_events@),
            json_lines_read: self.json_lines_read as nat,
            malformed_lines: self.malformed_lines as nat,
        }
    }
}

/// The last call with an id.
pub open spec fn call_with_id(calls: Seq<ToolCall>, id: Seq<char>) -> Option<int>
    decreases calls.len(),
{
    if calls.len() == 0 {
        None
    } else if calls.last().call_id == Some(id) {
        Some(calls.len() - 1)
    } else {
        call_with_id(calls.drop_last(), id)
    }
}

/// The event with an id; no two have the same one.
pub open spec fn event_with_id(events: Seq<Event>, id: Seq<char>) -> Option<int>
    decreases events.len(),
{
    if events.len() == 0 {
        None
    } else if events.last().call_id == Some(id) {
        Some(events.len() - 1)
    } else {
        event_with_id(events.drop_last(), id)
    }
}

/// The calls with the output of one of them.
pub open spec fn note_output(
    calls: Seq<ToolCall>,
    id: Option<Seq<char>>,
    line: usize,
    output: Seq<char>,
    limit: nat,
) -> Seq<ToolCall> {
    match id {
        Some(id) => match call_with_id(calls, id) {
            Some(i) => calls.update(i, with_output(calls[i], line, output, limit)),
            None => calls,
        },
        None => calls,
    }
}

/// The calls with the response to a dynamic one: its output, and completed on success.
pub open spec fn note_response(
    calls: Seq<ToolCall>,
    payload: JsonTree,
    line: usize,
    limit: nat,
) -> Seq<ToolCall> {
    match dynamic_id(payload) {
        Some(id) => match call_with_id(calls, id) {
            Some(i) => {
                let call = with_output(
                    calls[i],
                    line,
                    opt_value_text(payload.get("content_items"@)),
                    limit,
                );
                calls.update(
                    i,
                    if payload.get("success"@) == Some(JsonTree::Bool(true)) {
                        ToolCall { status: Some("completed"@), ..call }
                    } else {
                        call
                    },
                )
            },
            None => calls,
        },
        None => calls,
    }
}

/// The calls with one more, where there is one.
pub open spec fn note_call(calls: Seq<ToolCall>, call: Option<ToolCall>) -> Seq<ToolCall> {
    match call {
        Some(call) => calls.push(call),
        None => calls,
    }
}

/// The events with one more; it takes the place of one with the same id.
pub open spec fn note_event(events: Seq<Event>, event: Event) -> Seq<Event> {
    match event.call_id {
        Some(id) => match event_with_id(events, id) {
            Some(i) => events.update(i, event),
            None => events.push(event),
        },
        None => events,
    }
}

/// The session that a row of session metadata names.
pub open spec fn session_of(row: JsonTree) -> Option<Seq<char>> {
    if row.text_at("type"@) == Some("session_meta"@) {
        match row.get("payload"@) {
            Some(payload) => payload.text_at("id"@),
            None => None,
        }
    } else {
        None
    }
}

/// What has been found once a payload has been looked at.
pub open spec fn note_payload(scan: Scan, payload: JsonTree, kind: Seq<char>, place: Place) -> Scan {
    let limit = place.preview_chars as nat;
    if kind == "function_call"@ || kind == "custom_tool_call"@ {
        Scan { calls: note_call(scan.calls, tool_call_of(payload, kind, place)), ..scan }
    } else if kind == "function_call_output"@ || kind == "custom_tool_call_output"@ {
        Scan {
            calls: note_output(
                scan.calls,
                payload.text_at("call_id"@),
                place.line,
                opt_value_text(payload.get("output"@)),
                limit,
            ),
            ..scan
        }
    } else if kind == "mcp_tool_call_end"@ {
        Scan { calls: note_call(scan.calls, server_call_of(payload, place)), ..scan }
    } else if kind == "dynamic_tool_call_request"@ {
        Scan { calls: note_call(scan.calls, dynamic_call_of(payload, place)), ..scan }
    } else if kind == "dynamic_tool_call_response"@ {
        Scan { calls: note_response(scan.calls, payload, place.line, limit), ..scan }
    } else if kind == "exec_command_end"@ {
        let event = event_of(payload, place);
        if event.call_id is Some {
            Scan { events: note_event(scan.events, event), ..scan }
        } else {
            Scan { anonymous_events: scan.anonymous_events.push(event), ..scan }
        }
    } else {
        scan
    }
}

/// What has been found once a line has been looked at.
pub open spec fn note_line(
    scan: Scan,
    line: Seq<char>,
    number: usize,
    rollout_path: Seq<char>,
    preview_chars: usize,
) -> Scan {
    match json_of_text(line) {
        None => Scan { malformed_lines: scan.malformed_lines + 1, ..scan },
        Some(row) => {
            let known = Scan {
                json_lines_read: scan.json_lines_read + 1,
                thread_id: first_of(session_of(row), scan.thread_id),
                ..scan
            };
            match row.get("payload"@) {
                Some(payload) => match payload.text_at("type"@) {
                    Some(kind) => note_payload(
                        known,
                        payload,
                        kind,
                        Place {
                            rollout_path,
                            line: number,
                            thread_id: known.thread_id,
                            timestamp: row.text_at("timestamp"@),
                            preview_chars,
                        },
                    ),
                    None => known,
                },
                None => known,
            }
        },
    }
}

/// What is found in the lines of a rollout; lines are numbered from 1.
pub open spec fn scan_of(
    rows: Seq<Seq<char>>,
    thread_id: Option<Seq<char>>,
    rollout_path: Seq<char>,
    preview_chars: usize,
) -> Scan
    decreases rows.len(),
{
    if rows.len() == 0 {
        Scan {
            thread_id,
            calls: Seq::empty(),
            events: Seq::empty(),
            anonymous_events: Seq::empty(),
            json_lines_read: 0,
            malformed_lines: 0,
        }
    } else {
        note_line(
            scan_of(rows.drop_last(), thread_id, rollout_path, preview_chars),
            rows.last(),
            rows.len() as usize,
            rollout_path,
            preview_chars,
        )
    }
}

fn find_call(calls: &Vec<ToolCallRecord>, id: &str) -> (r: Option<usize>)
    ensures
        match r {
            Some(i) => i < calls@.len() && call_with_id(call_views(calls@), id@) == Some(i as int),
            None => call_with_id(call_views(calls@), id@) is None,
        },
{
    let ghost all = call_views(calls@);
    let mut n: usize = calls.len();
    proof {
        assert(all.take(n as int) =~= all);
    }
    while n > 0
        invariant
            n <= calls@.len(),
            all == call_views(calls@),
            call_with_id(all, id@) == call_with_id(all.take(n as int), id@),
        decreases n,
    {
        proof {
            assert(all.take(n as int).drop_last() =~= all.take(n - 1));
            assert(all.take(n as int).last() == calls@[n - 1]@);
        }
        if let Some(found) = &calls[n - 1].call_id {
            if same_text(found.as_str(), id) {
                return Some(n - 1);
            }
        }
        n -= 1;
    }
    None
}

fn find_event(events: &Vec<ExecEvent>, id: &str) -> (r: Option<usize>)
    ensures
        match r {
            Some(i) => i < events@.len() && event_with_id(event_views(events@), id@) == Some(
                i as int,
            ),
            None => event_with_id(event_views(events@), id@) is None,
        },
{
    let ghost all = event_views(events@);
    let mut n: usize = events.len();
    proof {
        assert(all.take(n as int) =~= all);
    }
    while n > 0
        invariant
            n <= events@.len(),
            all == event_views(events@),
            event_with_id(all, id@) == event_with_id(all.take(n as int), id@),
        decreases n,
    {
        proof {
            assert(all.take(n as int).drop_last() =~= all.take(n - 1));
            assert(all.take(n as int).last() == events@[n - 1]@);
        }
        if let Some(found) = &events[n - 1].call_id {
            if same_text(found.as_str(), id) {
                return Some(n - 1);
            }
        }
        n -= 1;
    }
    None
}

fn push_call(calls: &mut Vec<ToolCallRecord>, call: Option<ToolCallRecord>)
    ensures
        call_views(final(calls)@) == note_call(
            call_views(old(calls)@),
            match call {
                Some(call) => Some(call@),
                None => None,
            },
        ),
{
    if let Some(call) = call {
        let ghost before = call_views(calls@);
        calls.push(call);
        proof {
            assert(call_views(calls@) =~= before.push(call@));
        }
    }
}

fn push_output(
    calls: &mut Vec<ToolCallRecord>,
    id: Option<&String>,
    line: usize,
    output: &str,
    preview_chars: usize,
)
    ensures
        call_views(final(calls)@) == note_output(
            call_views(old(calls)@),
            match id {
                Some(id) => Some(id@),
                None => None,
            },
            line,
            output@,
            preview_chars as nat,
        ),
{
    if let Some(id) = id {
        if let Some(i) = find_call(calls, id.as_str()) {
            let ghost before = calls@;
            let ghost call = calls@[i as int]@;
            set_output(&mut calls[i], line, output, preview_chars);
            proof {
                assert(call_views(calls@) =~= call_views(before).update(
                    i as int,
                    with_output(call, line, output@, preview_chars as nat),
                ));
            }
        }
    }
}

fn push_response(calls: &mut Vec<ToolCallRecord>, payload: &Json, line: usize, preview_chars: usize)
    ensures
        call_views(final(calls)@) == note_response(
            call_views(old(calls)@),
            payload@,
            line,
            preview_chars as nat,
        ),
{
    let output = opt_value_to_text(payload.get("content_items"));
    let success = match payload.get("success") {
        Some(Json::Bool(flag)) => *flag,
        _ => false,
    };
    if let Some(id) = find_dynamic_id(payload) {
        if let Some(i) = find_call(calls, id.as_str()) {
            let ghost before = calls@;
            let ghost old_calls = call_views(calls@);
            set_output(&mut calls[i], line, output.as_str(), preview_chars);
            let ghost call = calls@[i as int]@;
            proof {
                assert(call_views(calls@) =~= old_calls.update(i as int, call));
            }
            if success {
                let ghost middle = call_views(calls@);
                set_status(&mut calls[i], "completed".to_owned());
                proof {
                    assert(call_views(calls@) =~= old_calls.update(
                        i as int,
                        ToolCall { status: Some("completed"@), ..call },
                    ));
                }
            }
        }
    }
}

fn set_status(call: &mut ToolCallRecord, status: String)
    ensures
        final(call)@ == (ToolCall { status: Some(status@), ..old(call)@ }),
{
    call.status = Some(status);
}

fn push_event(scan: &mut RolloutScan, event: ExecEvent)
    ensures
        final(scan)@ == (if event@.call_id is Some {
            Scan { events: note_event(old(scan)@.events, event@), ..old(scan)@ }
        } else {
            Scan { anonymous_events: old(scan)@.anonymous_events.push(event@), ..old(scan)@ }
        }),
{
    let ghost before = scan@;
    match &event.call_id {
        Some(id) => {
            match find_event(&scan.events, id.as_str()) {
                Some(i) => {
                    scan.events.set(i, event);
                    proof {
                        assert(event_views(scan.events@) =~= before.events.update(i as int, event@));
                    }
                },
                None => {
                    scan.events.push(event);
                    proof {
                        assert(event_views(scan.events@) =~= before.events.push(event@));
                    }
                },
            }
        },
        None => {
            scan.anonymous_events.push(event);
            proof {
                assert(event_views(scan.anonymous_events@) =~= before.anonymous_events.push(
                    event@,
                ));
            }
        },
    }
}

fn scan_payload(scan: &mut RolloutScan, payload: &Json, kind: &str, place: &RowPlace)
    ensures
        final(scan)@ == note_payload(old(scan)@, payload@, kind@, place@),
        final(scan).json_lines_read == old(scan).json_lines_read,
        final(scan).malformed_lines == old(scan).malformed_lines,
{
    if same_text(kind, "function_call") || same_text(kind, "custom_tool_call") {
        let call = parse_tool_call(payload, kind, place);
        push_call(&mut scan.calls, call);
    } else if same_text(kind, "function_call_output") || same_text(kind, "custom_tool_call_output") {
        let output = opt_value_to_text(payload.get("output"));
        push_output(
            &mut scan.calls,
            payload.text_at("call_id"),
            place.line,
            output.as_str(),
            place.preview_chars,
        );
    } else if same_text(kind, "mcp_tool_call_end") {
        let call = parse_server_call(payload, place);
        push_call(&mut scan.calls, call);
    } else if same_text(kind, "dynamic_tool_call_request") {
        let call = parse_dynamic_call(payload, place);
        push_call(&mut scan.calls, call);
    } else if same_text(kind, "dynamic_tool_call_response") {
        push_response(&mut scan.calls, payload, place.line, place.preview_chars);
    } else if same_text(kind, "exec_command_end") {
        let event = parse_exec_event(payload, place);
        push_event(scan, event);
    }
}

/// The session that a row of session metadata names.
pub fn session_meta_id(row: &Json) -> (r: Option<String>)
    ensures
        opt_view(r) == session_of(row@),
{
    match row.text_at("type") {
        Some(kind) => {
            if !same_text(kind.as_str(), "session_meta") {
                return None;
            }
            match row.get("payload") {
                Some(payload) => copy_text(payload.text_at("id")),
                None => None,
            }
        },
        None => None,
    }
}

fn scan_line(
    scan: &mut RolloutScan,
    line: &str,
    number: usize,
    rollout_path: &str,
    preview_chars: usize,
)
    requires
        old(scan).json_lines_read < usize::MAX,
        old(scan).malformed_lines < usize::MAX,
    ensures
        final(scan)@ == note_line(old(scan)@, line@, number, rollout_path@, preview_chars),
        final(scan).json_lines_read <= old(scan).json_lines_read + 1,
        final(scan).malformed_lines <= old(scan).malformed_lines + 1,
{
    let row = match parse(line) {
        Some(row) => row,
        None => {
            scan.malformed_lines = scan.malformed_lines + 1;
            return;
        },
    };
    scan.json_lines_read = scan.json_lines_read + 1;
    if let Some(id) = session_meta_id(&row) {
        scan.thread_id = Some(id);
    }
    if let Some(payload) = row.get("payload") {
        if let Some(kind) = payload.text_at("type") {
            let place = RowPlace {
                rollout_path: rollout_path.to_owned(),
                line: number,
                thread_id: copy_option(&scan.thread_id),
                timestamp: copy_text(row.text_at("timestamp")),
                preview_chars,
            };
            scan_payload(scan, payload, kind.as_str(), &place);
        }
    }
}

/// Looks for calls and events in the lines of a rollout.
pub fn scan_rollout(
    rows: &Vec<String>,
    thread_id: Option<String>,
    rollout_path: &str,
    preview_chars: usize,
) -> (r: RolloutScan)
    ensures
        r@ == scan_of(views(rows@), opt_view(thread_id), rollout_path@, preview_chars),
        r.json_lines_read <= rows@.len(),
        r.malformed_lines <= rows@.len(),
{
    let ghost all = views(rows@);
    let ghost first = opt_view(thread_id);
    let mut scan = RolloutScan {
        thread_id,
        calls: Vec::new(),
        events: Vec::new(),
        anonymous_events: Vec::new(),
        json_lines_read: 0,
        malformed_lines: 0,
    };
    let mut i: usize = 0;
    proof {
        assert(call_views(scan.calls@) =~= Seq::<ToolCall>::empty());
        assert(event_views(scan.events@) =~= Seq::<Event>::empty());
        assert(event_views(scan.anonymous_events@) =~= Seq::<Event>::empty());
    }
    while i < rows.len()
        invariant
            all == views(rows@),
            i <= rows@.len(),
            scan@ == scan_of(all.take(i as int), first, rollout_path@, preview_chars),
            scan.json_lines_read <= i,
            scan.malformed_lines <= i,
        decreases rows@.len() - i,
    {
        proof {
            assert(all.take(i + 1).drop_last() =~= all.take(i as int));
            assert(all.take(i + 1).last() == rows@[i as int]@);
        }
        scan_line(&mut scan, rows[i].as_str(), i + 1, rollout_path, preview_chars);
        i += 1;
    }
    proof {
        assert(all.take(all.len() as int) =~= all);
    }
    scan
}

// ---------------------------------------------------------------------------
// Indexing a rollout
// ---------------------------------------------------------------------------

/// The event of a call, where it has an id and an event with that id was found.
pub open spec fn event_for(events: Seq<Event>, id: Option<Seq<char>>) -> Option<Event> {
    match id {
        Some(id) => match event_with_id(events, id) {
            Some(i) => Some(events[i]),
            None => None,
        },
        None => None,
    }
}

/// Whether a call with an id runs commands, so that its event goes with it.
pub open spec fn is_accounted_for(calls: Seq<ToolCall>, id: Option<Seq<char>>) -> bool {
    exists|i: int|
        0 <= i < calls.len() && runs_commands((#[trigger] calls[i]).tool_name) && calls[i].call_id
            == id
}

/// The execution of a call that runs commands.
pub open spec fn call_execution(scan: Scan, call: ToolCall) -> Option<Execution> {
    if runs_commands(call.tool_name) {
        Some(execution_of(call, event_for(scan.events, call.call_id)))
    } else {
        None
    }
}

/// The execution of an event that goes with no call.
pub open spec fn event_execution(scan: Scan, event: Event) -> Option<Execution> {
    if is_accounted_for(scan.calls, event.call_id) {
        None
    } else {
        Some(execution_of_event(event))
    }
}

/// The executions of a rollout: those of calls, then those of events that go with no call,
/// then those of events without an id.
pub open spec fn executions_of(scan: Scan) -> Seq<Execution> {
    scan.calls.filter_map(|call: ToolCall| call_execution(scan, call)) + scan.events.filter_map(
        |event: Event| event_execution(scan, event),
    ) + scan.anonymous_events.map_values(|event: Event| execution_of_event(event))
}

/// What one rollout adds to the index; `readable` tells whether it was read to its end.
#[derive(Debug, PartialEq, Eq)]
pub struct RolloutIndex {
    pub tool_calls: Vec<ToolCallRecord>,
    pub command_executions: Vec<CommandExecutionRecord>,
    pub json_lines_read: usize,
    pub malformed_lines: usize,
    pub readable: bool,
}

fn find_event_for<'a>(events: &'a Vec<ExecEvent>, id: &Option<String>) -> (r: Option<&'a ExecEvent>)
    ensures
        (match r {
            Some(event) => Some(event@),
            None => None,
        }) == event_for(event_views(events@), opt_view(*id)),
{
    match id {
        Some(id) => match find_event(events, id.as_str()) {
            Some(i) => {
                proof {
                    assert(event_views(events@)[i as int] == events@[i as int]@);
                }
                Some(&events[i])
            },
            None => None,
        },
        None => None,
    }
}

fn goes_with_call(calls: &Vec<ToolCallRecord>, id: &Option<String>) -> (r: bool)
    ensures
        r == is_accounted_for(call_views(calls@), opt_view(*id)),
{
    let ghost all = call_views(calls@);
    let mut i: usize = 0;
    while i < calls.len()
        invariant
            all == call_views(calls@),
            i <= calls@.len(),
            forall|j: int|
                0 <= j < i ==> !(runs_commands((#[trigger] all[j]).tool_name) && all[j].call_id
                    == opt_view(*id)),
        decreases calls@.len() - i,
    {
        proof {
            assert(all[i as int] == calls@[i as int]@);
        }
        if is_execution_tool(calls[i].tool_name.as_str()) && same_option(&calls[i].call_id, id) {
            return true;
        }
        i += 1;
    }
    false
}

fn same_option(a: &Option<String>, b: &Option<String>) -> (r: bool)
    ensures
        r == (opt_view(*a) == opt_view(*b)),
{
    match (a, b) {
        (Some(a), Some(b)) => same_text(a.as_str(), b.as_str()),
        (None, None) => true,
        _ => false,
    }
}

fn executions_from_calls(scan: &RolloutScan) -> (r: Vec<CommandExecutionRecord>)
    ensures
        execution_views(r@) == scan@.calls.filter_map(
            |call: ToolCall| call_execution(scan@, call),
        ),
{
    let ghost all = scan@.calls;
    let ghost made = |call: ToolCall| call_execution(scan@, call);
    let mut out: Vec<CommandExecutionRecord> = Vec::new();
    let mut i: usize = 0;
    proof {
        lemma_no_items(all);
        reveal_with_fuel(Seq::filter_map, 1);
        assert(execution_views(out@) =~= all.take(0).filter_map(made));
    }
    while i < scan.calls.len()
        invariant
            all == scan@.calls,
            made == (|call: ToolCall| call_execution(scan@, call)),
            i <= scan.calls@.len(),
            execution_views(out@) == all.take(i as int).filter_map(made),
        decreases scan.calls@.len() - i,
    {
        proof {
            assert(all[i as int] == scan.calls@[i as int]@);
            lemma_filter_map_step(all, i as int, made);
        }
        let ghost before = execution_views(out@);
        if is_execution_tool(scan.calls[i].tool_name.as_str()) {
            let event = find_event_for(&scan.events, &scan.calls[i].call_id);
            let record = command_execution_for_call(&scan.calls[i], event);
            out.push(record);
            proof {
                assert(execution_views(out@) =~= before.push(record@));
            }
        }
        i += 1;
    }
    out
}

fn executions_from_events(scan: &RolloutScan) -> (r: Vec<CommandExecutionRecord>)
    ensures
        execution_views(r@) == scan@.events.filter_map(
            |event: Event| event_execution(scan@, event),
        ),
{
    let ghost all = scan@.events;
    let ghost made = |event: Event| event_execution(scan@, event);
    let mut out: Vec<CommandExecutionRecord> = Vec::new();
    let mut i: usize = 0;
    proof {
        lemma_no_items(all);
        reveal_with_fuel(Seq::filter_map, 1);
        assert(execution_views(out@) =~= all.take(0).filter_map(made));
    }
    while i < scan.events.len()
        invariant
            all == scan@.events,
            made == (|event: Event| event_execution(scan@, event)),
            i <= scan.events@.len(),
            execution_views(out@) == all.take(i as int).filter_map(made),
        decreases scan.events@.len() - i,
    {
        proof {
            assert(all[i as int] == scan.events@[i as int]@);
            lemma_filter_map_step(all, i as int, made);
        }
        let ghost before = execution_views(out@);
        if !goes_with_call(&scan.calls, &scan.events[i].call_id) {
            let record = command_execution_for_event(&scan.events[i]);
            out.push(record);
            proof {
                assert(execution_views(out@) =~= before.push(record@));
            }
        }
        i += 1;
    }
    out
}

fn executions_from_anonymous(events: &Vec<ExecEvent>) -> (r: Vec<CommandExecutionRecord>)
    ensures
        execution_views(r@) == event_views(events@).map_values(
            |event: Event| execution_of_event(event),
        ),
{
    let mut out: Vec<CommandExecutionRecord> = Vec::new();
    let mut i: usize = 0;
    while i < events.len()
        invariant
            i <= events@.len(),
            out@.len() == i,
            forall|j: int| 0 <= j < i ==> (#[trigger] out@[j])@ == execution_of_event(events@[j]@),
        decreases events@.len() - i,
    {
        out.push(command_execution_for_event(&events[i]));
        i += 1;
    }
    proof {
        assert(execution_views(out@) =~= event_views(events@).map_values(
            |event: Event| execution_of_event(event),
        ));
    }
    out
}

/// Indexes the lines of a rollout. Of one that could not be read to its end, only the lines
/// are counted.
pub fn index_rollout(
    rows: &Vec<String>,
    readable: bool,
    thread_id: Option<String>,
    rollout_path: &str,
    preview_chars: usize,
) -> (r: RolloutIndex)
    ensures
        ({
            let scan = scan_of(views(rows@), opt_view(thread_id), rollout_path@, preview_chars);
            &&& r.readable == readable
            &&& r.json_lines_read == scan.json_lines_read
            &&& r.malformed_lines == scan.malformed_lines
            &&& call_views(r.tool_calls@) == (if readable {
                scan.calls
            } else {
                Seq::empty()
            })
            &&& execution_views(r.command_executions@) == (if readable {
                executions_of(scan)
            } else {
                Seq::empty()
            })
        }),
{
    let scan = scan_rollout(rows, thread_id, rollout_path, preview_chars);
    let ghost found = scan@;
    if !readable {
        let tool_calls: Vec<ToolCallRecord> = Vec::new();
        let command_executions: Vec<CommandExecutionRecord> = Vec::new();
        proof {
            assert(call_views(tool_calls@) =~= Seq::<ToolCall>::empty());
            assert(execution_views(command_executions@) =~= Seq::<Execution>::empty());
        }
        return RolloutIndex {
            tool_calls,
            command_executions,
            json_lines_read: scan.json_lines_read,
            malformed_lines: scan.malformed_lines,
            readable,
        };
    }
    let mut command_executions = executions_from_calls(&scan);
    let mut from_events = executions_from_events(&scan);
    let mut from_anonymous = executions_from_anonymous(&scan.anonymous_events);
    let ghost first = command_executions@;
    let ghost second = from_events@;
    let ghost third = from_anonymous@;
    command_executions.append(&mut from_events);
    command_executions.append(&mut from_anonymous);
    proof {
        assert(execution_views(command_executions@) =~= execution_views(first) + execution_views(
            second,
        ) + execution_views(third));
    }
    RolloutIndex {
        tool_calls: scan.calls,
        command_executions,
        json_lines_read: scan.json_lines_read,
        malformed_lines: scan.malformed_lines,
        readable,
    }
}

/// Every line of a rollout is counted once: as a row, or as malformed.
pub proof fn every_line_is_counted(
    rows: Seq<Seq<char>>,
    thread_id: Option<Seq<char>>,
    rollout_path: Seq<char>,
    preview_chars: usize,
)
    ensures
        ({
            let scan = scan_of(rows, thread_id, rollout_path, preview_chars);
            scan.json_lines_read + scan.malformed_lines == rows.len()
        }),
    decreases rows.len(),
{
    if rows.len() > 0 {
        every_line_is_counted(rows.drop_last(), thread_id, rollout_path, preview_chars);
    }
}

/// A call that was found stays found: later lines add calls, and set nothing of earlier ones
/// but their output and status.
pub proof fn calls_are_kept(
    scan: Scan,
    line: Seq<char>,
    number: usize,
    rollout_path: Seq<char>,
    preview_chars: usize,
    i: int,
)
    requires
        0 <= i < scan.calls.len(),
    ensures
        ({
            let after = note_line(scan, line, number, rollout_path, preview_chars).calls;
            &&& scan.calls.len() <= after.len() <= scan.calls.len() + 1
            &&& after[i] == (ToolCall {
                output_line: after[i].output_line,
                output_preview: after[i].output_preview,
                output_bytes: after[i].output_bytes,
                status: after[i].status,
                ..scan.calls[i]
            })
        }),
{
    if json_of_text(line) is Some {
        let row = json_of_text(line)->0;
        if row.get("payload"@) is Some && row.get("payload"@)->0.text_at("type"@) is Some {
            let payload = row.get("payload"@)->0;
            if payload.text_at("call_id"@) is Some {
                lemma_call_with_id(scan.calls, payload.text_at("call_id"@)->0);
            }
            if dynamic_id(payload) is Some {
                lemma_call_with_id(scan.calls, dynamic_id(payload)->0);
            }
        }
    }
}

proof fn lemma_call_with_id(calls: Seq<ToolCall>, id: Seq<char>)
    ensures
        match call_with_id(calls, id) {
            Some(i) => 0 <= i < calls.len() && calls[i].call_id == Some(id) && forall|j: int|
                i < j < calls.len() ==> (#[trigger] calls[j]).call_id != Some(id),
            None => forall|j: int| 0 <= j < calls.len() ==> (#[trigger] calls[j]).call_id != Some(
                id,
            ),
        },
    decreases calls.len(),
{
    if calls.len() > 0 && calls.last().call_id != Some(id) {
        lemma_call_with_id(calls.drop_last(), id);
        assert forall|j: int| 0 <= j < calls.len() - 1 implies calls[j] == calls.drop_last()[j] by {}
    }
}

/// An output goes to the last call with its id.
pub proof fn outputs_go_to_the_last_call(
    calls: Seq<ToolCall>,
    id: Seq<char>,
    i: int,
    line: usize,
    output: Seq<char>,
    limit: nat,
)
    requires
        0 <= i < calls.len(),
        calls[i].call_id == Some(id),
        forall|j: int| i < j < calls.len() ==> (#[trigger] calls[j]).call_id != Some(id),
    ensures
        note_output(calls, Some(id), line, output, limit) == calls.update(
            i,
            with_output(calls[i], line, output, limit),
        ),
{
    lemma_call_with_id(calls, id);
}

/// Whether a preview holds at most the limit and a fixed mark.
pub open spec fn is_bounded(shown: Option<Seq<char>>, limit: nat) -> bool {
    shown is Some ==> shown->0.len() <= limit + 12
}

/// Whether all previews of a scan are bounded.
pub open spec fn scan_is_bounded(scan: Scan, limit: nat) -> bool {
    &&& forall|i: int|
        0 <= i < scan.calls.len() ==> is_bounded((#[trigger] scan.calls[i]).output_preview, limit)
            && is_bounded(scan.calls[i].arguments_preview, limit)
    &&& forall|i: int|
        0 <= i < scan.events.len() ==> is_bounded((#[trigger] scan.events[i]).output_preview, limit)
    &&& forall|i: int|
        0 <= i < scan.anonymous_events.len() ==> is_bounded(
            (#[trigger] scan.anonymous_events[i]).output_preview,
            limit,
        )
}

proof fn lemma_preview_is_bounded(text: Seq<char>, limit: nat)
    ensures
        is_bounded(preview(text, limit), limit),
{
    previews_are_bounded(text, limit);
}

proof fn lemma_event_with_id(events: Seq<Event>, id: Seq<char>)
    ensures
        event_with_id(events, id) matches Some(i) ==> 0 <= i < events.len(),
    decreases events.len(),
{
    if events.len() > 0 {
        lemma_event_with_id(events.drop_last(), id);
    }
}

proof fn lemma_scan_is_bounded(
    rows: Seq<Seq<char>>,
    thread_id: Option<Seq<char>>,
    rollout_path: Seq<char>,
    preview_chars: usize,
)
    ensures
        scan_is_bounded(
            scan_of(rows, thread_id, rollout_path, preview_chars),
            preview_chars as nat,
        ),
    decreases rows.len(),
{
    let limit = preview_chars as nat;
    if rows.len() > 0 {
        lemma_scan_is_bounded(rows.drop_last(), thread_id, rollout_path, preview_chars);
        let before = scan_of(rows.drop_last(), thread_id, rollout_path, preview_chars);
        assert forall|text: Seq<char>| is_bounded(#[trigger] preview(text, limit), limit) by {
            lemma_preview_is_bounded(text, limit);
        }
        if json_of_text(rows.last()) is Some {
            let row = json_of_text(rows.last())->0;
            if row.get("payload"@) is Some && row.get("payload"@)->0.text_at("type"@) is Some {
                let payload = row.get("payload"@)->0;
                if payload.text_at("call_id"@) is Some {
                    lemma_call_with_id(before.calls, payload.text_at("call_id"@)->0);
                    lemma_event_with_id(before.events, payload.text_at("call_id"@)->0);
                }
                if dynamic_id(payload) is Some {
                    lemma_call_with_id(before.calls, dynamic_id(payload)->0);
                }
            }
        }
    }
}

/// The index keeps outputs and arguments only as bounded previews: of each call, and of each
/// execution.
pub proof fn indexed_previews_are_bounded(
    rows: Seq<Seq<char>>,
    thread_id: Option<Seq<char>>,
    rollout_path: Seq<char>,
    preview_chars: usize,
)
    ensures
        ({
            let scan = scan_of(rows, thread_id, rollout_path, preview_chars);
            let limit = preview_chars as nat;
            &&& forall|i: int|
                0 <= i < scan.calls.len() ==> is_bounded(
                    (#[trigger] scan.calls[i]).output_preview,
                    limit,
                ) && is_bounded(scan.calls[i].arguments_preview, limit)
            &&& forall|i: int|
                0 <= i < executions_of(scan).len() ==> is_bounded(
                    (#[trigger] executions_of(scan)[i]).output_preview,
                    limit,
                )
        }),
{
    let scan = scan_of(rows, thread_id, rollout_path, preview_chars);
    let limit = preview_chars as nat;
    lemma_scan_is_bounded(rows, thread_id, rollout_path, preview_chars);
    let from_call = |call: ToolCall| call_execution(scan, call);
    let from_event = |event: Event| event_execution(scan, event);
    let first = scan.calls.filter_map(from_call);
    let second = scan.events.filter_map(from_event);
    let third = scan.anonymous_events.map_values(|event: Event| execution_of_event(event));
    assert forall|i: int| 0 <= i < executions_of(scan).len() implies is_bounded(
        (#[trigger] executions_of(scan)[i]).output_preview,
        limit,
    ) by {
        let found = executions_of(scan)[i];
        if i < first.len() {
            assert(found == first[i]);
            assert(first.contains(found));
            scan.calls.lemma_filter_map_contains(from_call, found);
            let call = choose|call: ToolCall| #[trigger]
                scan.calls.contains(call) && from_call(call) == Some(found);
            let j = choose|j: int| 0 <= j < scan.calls.len() && scan.calls[j] == call;
            assert(is_bounded(scan.calls[j].output_preview, limit));
            if call.call_id is Some {
                lemma_event_with_id(scan.events, call.call_id->0);
            }
        } else if i < first.len() + second.len() {
            assert(found == second[i - first.len()]);
            assert(second.contains(found));
            scan.events.lemma_filter_map_contains(from_event, found);
            let event = choose|event: Event| #[trigger]
                scan.events.contains(event) && from_event(event) == Some(found);
            let j = choose|j: int| 0 <= j < scan.events.len() && scan.events[j] == event;
            assert(is_bounded(scan.events[j].output_preview, limit));
        } else {
            let j = i - first.len() - second.len();
            assert(found == third[j]);
            assert(is_bounded(scan.anonymous_events[j].output_preview, limit));
        }
    }
}

// ---------------------------------------------------------------------------
// The summary
// ---------------------------------------------------------------------------

/// What the index holds.
#[derive(Debug, PartialEq, Eq)]
pub struct HistoryIndexSummary {
    pub generated_at: String,
    pub rollouts_scanned: usize,
    pub live_rollouts: usize,
    pub archived_rollouts: usize,
    pub json_lines_read: usize,
    pub malformed_lines: usize,
    pub tool_calls_indexed: usize,
    pub command_executions_indexed: usize,
    pub output_previews_indexed: usize,
    pub errors: usize,
    pub index_dir: String,
}

/// A rollout of the index, from the live or the archived sessions.
pub struct IndexedRollout {
    pub live: bool,
    pub index: RolloutIndex,
}

/// How many of the calls have an output to show.
pub open spec fn previews_in(calls: Seq<ToolCallRecord>) -> nat {
    calls.filter(|call: ToolCallRecord| call.output_preview is Some).len()
}

/// How many tool calls the rollouts add.
pub open spec fn total_calls(rollouts: Seq<IndexedRollout>) -> nat {
    total(rollouts, |r: IndexedRollout| r.index.tool_calls@.len())
}

/// How many command executions the rollouts add.
pub open spec fn total_executions(rollouts: Seq<IndexedRollout>) -> nat {
    total(rollouts, |r: IndexedRollout| r.index.command_executions@.len())
}

/// How many calls with an output to show the rollouts add.
pub open spec fn total_previews(rollouts: Seq<IndexedRollout>) -> nat {
    total(rollouts, |r: IndexedRollout| previews_in(r.index.tool_calls@))
}

/// How many rows were read in the rollouts.
pub open spec fn total_rows(rollouts: Seq<IndexedRollout>) -> nat {
    total(rollouts, |r: IndexedRollout| r.index.json_lines_read as nat)
}

/// How many lines of the rollouts are malformed.
pub open spec fn total_malformed(rollouts: Seq<IndexedRollout>) -> nat {
    total(rollouts, |r: IndexedRollout| r.index.malformed_lines as nat)
}

fn count_previews(calls: &Vec<ToolCallRecord>) -> (r: usize)
    ensures
        r == previews_in(calls@),
{
    let ghost shown = |call: ToolCallRecord| call.output_preview is Some;
    let mut count: usize = 0;
    let mut i: usize = 0;
    proof {
        lemma_no_items(calls@);
    }
    while i < calls.len()
        invariant
            i <= calls@.len(),
            shown == (|call: ToolCallRecord| call.output_preview is Some),
            count <= i,
            count == calls@.take(i as int).filter(shown).len(),
        decreases calls@.len() - i,
    {
        proof {
            lemma_filter_step(calls@, i as int, shown);
        }
        if calls[i].output_preview.is_some() {
            count += 1;
        }
        i += 1;
    }
    proof {
        lemma_no_items(calls@);
    }
    count
}

/// Sums up an index that was made of the given rollouts.
pub fn refresh_history_index(
    generated_at: String,
    index_dir: String,
    rollouts: &Vec<IndexedRollout>,
) -> (r: HistoryIndexSummary)
    requires
        total_calls(rollouts@) <= usize::MAX,
        total_executions(rollouts@) <= usize::MAX,
        total_previews(rollouts@) <= usize::MAX,
        total_rows(rollouts@) <= usize::MAX,
        total_malformed(rollouts@) <= usize::MAX,
    ensures
        r.generated_at@ == generated_at@,
        r.index_dir@ == index_dir@,
        r.rollouts_scanned == rollouts@.len(),
        r.live_rollouts == rollouts@.filter(|r: IndexedRollout| r.live).len(),
        r.archived_rollouts == rollouts@.filter(|r: IndexedRollout| !r.live).len(),
        r.json_lines_read == total_rows(rollouts@),
        r.malformed_lines == total_malformed(rollouts@),
        r.tool_calls_indexed == total_calls(rollouts@),
        r.command_executions_indexed == total_executions(rollouts@),
        r.output_previews_indexed == total_previews(rollouts@),
        r.errors == rollouts@.filter(|r: IndexedRollout| !r.index.readable).len(),
{
    let ghost live = |r: IndexedRollout| r.live;
    let ghost archived = |r: IndexedRollout| !r.live;
    let ghost failed = |r: IndexedRollout| !r.index.readable;
    let ghost calls = |r: IndexedRollout| r.index.tool_calls@.len();
    let ghost executions = |r: IndexedRollout| r.index.command_executions@.len();
    let ghost previews = |r: IndexedRollout| previews_in(r.index.tool_calls@);
    let ghost rows = |r: IndexedRollout| r.index.json_lines_read as nat;
    let ghost malformed = |r: IndexedRollout| r.index.malformed_lines as nat;
    let mut summary = HistoryIndexSummary {
        generated_at,
        rollouts_scanned: rollouts.len(),
        live_rollouts: 0,
        archived_rollouts: 0,
        json_lines_read: 0,
        malformed_lines: 0,
        tool_calls_indexed: 0,
        command_executions_indexed: 0,
        output_previews_indexed: 0,
        errors: 0,
        index_dir,
    };
    let mut i: usize = 0;
    proof {
        lemma_no_items(rollouts@);
    }
    while i < rollouts.len()
        invariant
            i <= rollouts@.len(),
            live == (|r: IndexedRollout| r.live),
            archived == (|r: IndexedRollout| !r.live),
            failed == (|r: IndexedRollout| !r.index.readable),
            calls == (|r: IndexedRollout| r.index.tool_calls@.len()),
            executions == (|r: IndexedRollout| r.index.command_executions@.len()),
            previews == (|r: IndexedRollout| previews_in(r.index.tool_calls@)),
            rows == (|r: IndexedRollout| r.index.json_lines_read as nat),
            malformed == (|r: IndexedRollout| r.index.malformed_lines as nat),
            total(rollouts@, calls) <= usize::MAX,
            total(rollouts@, executions) <= usize::MAX,
            total(rollouts@, previews) <= usize::MAX,
            total(rollouts@, rows) <= usize::MAX,
            total(rollouts@, malformed) <= usize::MAX,
            summary.generated_at@ == generated_at@,
            summary.index_dir@ == index_dir@,
            summary.rollouts_scanned == rollouts@.len(),
            summary.live_rollouts <= i,
            summary.archived_rollouts <= i,
            summary.errors <= i,
            summary.live_rollouts == rollouts@.take(i as int).filter(live).len(),
            summary.archived_rollouts == rollouts@.take(i as int).filter(archived).len(),
            summary.errors == rollouts@.take(i as int).filter(failed).len(),
            summary.json_lines_read == total(rollouts@.take(i as int), rows),
            summary.malformed_lines == total(rollouts@.take(i as int), malformed),
            summary.tool_calls_indexed == total(rollouts@.take(i as int), calls),
            summary.command_executions_indexed == total(rollouts@.take(i as int), executions),
            summary.output_previews_indexed == total(rollouts@.take(i as int), previews),
        decreases rollouts@.len() - i,
    {
        proof {
            lemma_filter_step(rollouts@, i as int, live);
            lemma_filter_step(rollouts@, i as int, archived);
            lemma_filter_step(rollouts@, i as int, failed);
            lemma_total_step(rollouts@, i as int, rows);
            lemma_total_step(rollouts@, i as int, malformed);
            lemma_total_step(rollouts@, i as int, calls);
            lemma_total_step(rollouts@, i as int, executions);
            lemma_total_step(rollouts@, i as int, previews);
        }
        let rollout = &rollouts[i];
        if rollout.live {
            summary.live_rollouts = summary.live_rollouts + 1;
        } else {
            summary.archived_rollouts = summary.archived_rollouts + 1;
        }
        if !rollout.index.readable {
            summary.errors = summary.errors + 1;
        }
        summary.json_lines_read = summary.json_lines_read + rollout.index.json_lines_read;
        summary.malformed_lines = summary.malformed_lines + rollout.index.malformed_lines;
        summary.tool_calls_indexed = summary.tool_calls_indexed + rollout.index.tool_calls.len();
        summary.command_executions_indexed = summary.command_executions_indexed
            + rollout.index.command_executions.len();
        let shown: usize = count_previews(&rollout.index.tool_calls);
        summary.output_previews_indexed = summary.output_previews_indexed + shown;
        i += 1;
    }
    summary
}

// ---------------------------------------------------------------------------
// The thread of a rollout file
// ---------------------------------------------------------------------------

/// What is left of a text after its first bytes.
pub open spec fn after_bytes(s: Seq<char>, n: int) -> Seq<char>
    decreases s.len(),
{
    if n <= 0 || s.len() == 0 {
        s
    } else {
        after_bytes(s.drop_first(), n - utf8_len(s.take(1)))
    }
}

/// Whether the first bytes of a text are whole characters.
pub open spec fn splits_at(s: Seq<char>, n: nat) -> bool {
    exists|k: int| 0 <= k <= s.len() && utf8_len(#[trigger] s.take(k)) == n
}

/// The part of a rollout file name between its prefix and its suffix.
pub open spec fn rollout_stem(name: Seq<char>) -> Option<Seq<char>> {
    match without_prefix(name, "rollout-"@) {
        Some(rest) => without_suffix(rest, ".jsonl"@),
        None => None,
    }
}

/// The thread that a rollout file names: what follows the time stamp of 20 bytes.
pub open spec fn rollout_thread(name: Seq<char>) -> Option<Seq<char>> {
    match rollout_stem(name) {
        Some(stem) => if utf8_len(stem) <= 20 {
            None
        } else {
            Some(after_bytes(stem, 20))
        },
        None => None,
    }
}

/// The thread that a rollout file names.
pub fn thread_id_from_rollout_name(name: &str) -> (r: Option<String>)
    requires
        rollout_stem(name@) is Some && utf8_len(rollout_stem(name@)->0) > 20 ==> splits_at(
            rollout_stem(name@)->0,
            20,
        ),
    ensures
        opt_view(r) == rollout_thread(name@),
{
    let rest = match strip_prefix(name, "rollout-") {
        Some(rest) => rest,
        None => {
            return None;
        },
    };
    let stem = match strip_suffix(rest.as_str(), ".jsonl") {
        Some(stem) => stem,
        None => {
            return None;
        },
    };
    if byte_len(stem.as_str()) <= 20 {
        return None;
    }
    let chars = chars_of(stem.as_str());
    let mut left: usize = 20;
    let mut i: usize = 0;
    proof {
        assert(stem@.skip(0) =~= stem@);
    }
    while left > 0 && i < chars.len()
        invariant
            chars@ == stem@,
            i <= chars@.len(),
            left <= 20,
            after_bytes(stem@, 20) == after_bytes(stem@.skip(i as int), left as int),
        decreases chars@.len() - i,
    {
        let one = text_of(&chars, i, i + 1);
        let width: usize = byte_len(one.as_str());
        proof {
            let rest = stem@.skip(i as int);
            assert(rest.take(1) =~= one@);
            assert(rest.drop_first() =~= stem@.skip(i + 1));
        }
        if width >= left {
            proof {
                let rest = stem@.skip(i + 1);
                assert(after_bytes(rest, left - width) == rest);
                assert(after_bytes(rest, 0) == rest);
            }
            left = 0;
        } else {
            left = left - width;
        }
        i += 1;
    }
    proof {
        assert(chars@.subrange(i as int, chars@.len() as int) =~= stem@.skip(i as int));
    }
    Some(text_of(&chars, i, chars.len()))
}

} // verus!
