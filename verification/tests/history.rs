use ucp::history::{
    duration_ms, extract_command, index_rollout, is_execution_tool, parse_argument_value,
    preview_text, refresh_history_index, scan_rollout, session_meta_id,
    thread_id_from_rollout_name, value_to_text, HistoryIndexSummary, IndexedRollout,
    DEFAULT_PREVIEW_CHARS,
};
use ucp::json::parse;

fn rows(content: &str) -> Vec<String> {
    content.lines().map(str::to_string).collect()
}

#[test]
fn indexes_function_and_event_command_executions() {
    let live = [
        "{\"timestamp\":\"2026-06-14T01:02:03Z\",\"type\":\"session_meta\",\"payload\":{\"id\":\"thread-live\",\"type\":\"session_meta\"}}\n",
        "{\"timestamp\":\"2026-06-14T01:02:04Z\",\"type\":\"response_item\",\"payload\":{\"type\":\"function_call\",\"name\":\"exec_command\",\"call_id\":\"call_exec\",\"arguments\":\"{\\\"cmd\\\":\\\"echo ok\\\",\\\"workdir\\\":\\\"/tmp/project\\\"}\"}}\n",
        "{\"timestamp\":\"2026-06-14T01:02:05Z\",\"type\":\"response_item\",\"payload\":{\"type\":\"function_call_output\",\"call_id\":\"call_exec\",\"output\":\"hello from command\"}}\n",
        "{\"timestamp\":\"2026-06-14T01:02:06Z\",\"type\":\"response_item\",\"payload\":{\"type\":\"custom_tool_call\",\"name\":\"apply_patch\",\"call_id\":\"call_patch\",\"input\":\"*** Begin Patch\"}}\n",
        "{\"timestamp\":\"2026-06-14T01:02:07Z\",\"type\":\"response_item\",\"payload\":{\"type\":\"custom_tool_call_output\",\"call_id\":\"call_patch\",\"output\":\"patch applied\"}}\n",
    ]
    .concat();
    let archived = [
        "{\"timestamp\":\"2026-06-13T01:02:04Z\",\"type\":\"event_msg\",\"payload\":{\"type\":\"exec_command_end\",\"call_id\":\"call_old\",\"command\":[\"/bin/zsh\",\"-lc\",\"printf old\"],\"cwd\":\"/tmp/old\",\"aggregated_output\":\"old output\",\"exit_code\":0,\"duration\":{\"secs\":1,\"nanos\":500000000},\"status\":\"completed\",\"parsed_cmd\":[{\"type\":\"read\",\"cmd\":\"printf old\",\"name\":\"old.txt\",\"path\":\"/tmp/old.txt\"}]}}\n",
        "not json\n",
    ]
    .concat();
    let live_name = "rollout-2026-06-14T01-02-03-thread-live.jsonl";
    let archived_name = "rollout-2026-06-13T01-02-03-thread-archived.jsonl";

    let rollouts = vec![
        IndexedRollout {
            live: true,
            index: index_rollout(
                &rows(&live),
                true,
                thread_id_from_rollout_name(live_name),
                &format!("sessions/2026/06/14/{live_name}"),
                32,
            ),
        },
        IndexedRollout {
            live: false,
            index: index_rollout(
                &rows(&archived),
                true,
                thread_id_from_rollout_name(archived_name),
                &format!("archived_sessions/{archived_name}"),
                32,
            ),
        },
    ];
    let summary = refresh_history_index(
        "2026-06-14T00:00:00Z".to_string(),
        ".ucp_history".to_string(),
        &rollouts,
    );
    assert_eq!(
        summary,
        HistoryIndexSummary {
            generated_at: summary.generated_at.clone(),
            rollouts_scanned: 2,
            live_rollouts: 1,
            archived_rollouts: 1,
            json_lines_read: 6,
            malformed_lines: 1,
            tool_calls_indexed: 2,
            command_executions_indexed: 2,
            output_previews_indexed: 2,
            errors: 0,
            index_dir: ".ucp_history".to_string(),
        }
    );

    let calls = &rollouts[0].index.tool_calls;
    assert_eq!(calls.len(), 2);
    assert_eq!(calls[0].thread_id.as_deref(), Some("thread-live"));
    assert_eq!(calls[0].command.as_deref(), Some("echo ok"));
    assert_eq!(calls[0].call_line, 2);
    assert_eq!(calls[0].output_line, Some(3));
    assert_eq!(
        calls[0].output_preview.as_deref(),
        Some("hello from command")
    );
    assert_eq!(calls[1].tool_name, "apply_patch");
    assert_eq!(calls[1].tool_kind, "custom");
    assert!(rollouts[1].index.tool_calls.is_empty());

    let first = &rollouts[0].index.command_executions;
    let second = &rollouts[1].index.command_executions;
    assert_eq!(first.len() + second.len(), 2);
    assert_eq!(first[0].command.as_deref(), Some("echo ok"));
    assert_eq!(first[0].cwd.as_deref(), Some("/tmp/project"));
    assert_eq!(second[0].command.as_deref(), Some("printf old"));
    assert_eq!(second[0].exit_code, Some(0));
    assert_eq!(second[0].duration_ms, Some(1500));
    assert_eq!(second[0].thread_id.as_deref(), Some("thread-archived"));
    assert_eq!(
        second[0].parsed_commands[0].path.as_deref(),
        Some("/tmp/old.txt")
    );
}

#[test]
fn test_switch_rebuilds_history_index_by_default_without_printing_outputs() {
    let hidden_output = "captured output stays in the index, not stdout";
    let live = format!(
        "{}\n{}\n{}\n{}\n{}\n{}\n{}\n",
        "{\"timestamp\":\"2026-06-14T01:02:03Z\",\"type\":\"session_meta\",\"payload\":{\"id\":\"thread-live\",\"model_provider\":\"old\",\"type\":\"session_meta\"}}",
        "{\"timestamp\":\"2026-06-14T01:02:04Z\",\"type\":\"response_item\",\"payload\":{\"type\":\"function_call\",\"name\":\"exec_command\",\"call_id\":\"call_exec\",\"arguments\":\"{\\\"cmd\\\":\\\"echo ok\\\",\\\"workdir\\\":\\\"/tmp/project\\\"}\"}}",
        format!(
            "{{\"timestamp\":\"2026-06-14T01:02:05Z\",\"type\":\"response_item\",\"payload\":{{\"type\":\"function_call_output\",\"call_id\":\"call_exec\",\"output\":\"{}\"}}}}",
            hidden_output
        ),
        "{\"timestamp\":\"2026-06-14T01:02:06Z\",\"type\":\"response_item\",\"payload\":{\"type\":\"custom_tool_call\",\"name\":\"apply_patch\",\"call_id\":\"call_patch\",\"input\":\"*** Begin Patch\"}}",
        "{\"timestamp\":\"2026-06-14T01:02:07Z\",\"type\":\"event_msg\",\"payload\":{\"type\":\"mcp_tool_call_end\",\"call_id\":\"call_mcp\",\"invocation\":{\"server\":\"codex_app\",\"tool\":\"read_thread_terminal\",\"arguments\":{\"limit\":10}},\"result\":{\"Ok\":\"terminal output\"}}}",
        "{\"timestamp\":\"2026-06-14T01:02:08Z\",\"type\":\"event_msg\",\"payload\":{\"type\":\"dynamic_tool_call_request\",\"callId\":\"call_dynamic\",\"namespace\":\"codex_app\",\"tool\":\"load_workspace_dependencies\",\"arguments\":{\"include\":\"runtime\"}}}",
        "{\"timestamp\":\"2026-06-14T01:02:09Z\",\"type\":\"event_msg\",\"payload\":{\"type\":\"dynamic_tool_call_response\",\"call_id\":\"call_dynamic\",\"tool\":\"load_workspace_dependencies\",\"success\":true,\"content_items\":[{\"text\":\"deps loaded\"}]}}"
    );
    let archived = [
        "{\"timestamp\":\"2026-06-13T01:02:04Z\",\"type\":\"event_msg\",\"payload\":{\"type\":\"exec_command_end\",\"call_id\":\"call_old\",\"command\":[\"/bin/zsh\",\"-lc\",\"printf old\"],\"cwd\":\"/tmp/old\",\"aggregated_output\":\"old output\",\"exit_code\":0,\"duration\":{\"secs\":1,\"nanos\":500000000},\"status\":\"completed\"}}\n",
        "not json\n",
    ]
    .concat();

    let rollouts = vec![
        IndexedRollout {
            live: true,
            index: index_rollout(
                &rows(&live),
                true,
                None,
                "sessions/2026/06/14/rollout-2026-06-14T01-02-03-thread-live.jsonl",
                DEFAULT_PREVIEW_CHARS,
            ),
        },
        IndexedRollout {
            live: false,
            index: index_rollout(
                &rows(&archived),
                true,
                None,
                "archived_sessions/rollout-2026-06-13T01-02-03-thread-archived.jsonl",
                DEFAULT_PREVIEW_CHARS,
            ),
        },
    ];
    let summary = refresh_history_index(String::new(), ".ucp_history".to_string(), &rollouts);
    assert_eq!(summary.rollouts_scanned, 2);
    assert_eq!(summary.live_rollouts, 1);
    assert_eq!(summary.archived_rollouts, 1);
    assert_eq!(summary.tool_calls_indexed, 4);
    assert_eq!(summary.command_executions_indexed, 2);

    let tool_calls = &rollouts[0].index.tool_calls;
    assert_eq!(tool_calls.len(), 4);
    assert_eq!(tool_calls[0].thread_id.as_deref(), Some("thread-live"));
    assert_eq!(tool_calls[0].command.as_deref(), Some("echo ok"));
    assert_eq!(tool_calls[1].tool_name, "apply_patch");
    assert!(tool_calls
        .iter()
        .any(|call| call.tool_name == "codex_app.read_thread_terminal"
            && call.status.as_deref() == Some("completed")));
    assert!(tool_calls.iter().any(|call| call.tool_name
        == "codex_app.load_workspace_dependencies"
        && call
            .output_preview
            .as_deref()
            .is_some_and(|preview| preview.contains("deps loaded"))));

    let first = &rollouts[0].index.command_executions;
    let second = &rollouts[1].index.command_executions;
    assert_eq!(first.len() + second.len(), 2);
    assert_eq!(first[0].command.as_deref(), Some("echo ok"));
    assert_eq!(first[0].cwd.as_deref(), Some("/tmp/project"));
    assert_eq!(first[0].output_preview.as_deref(), Some(hidden_output));
    assert_eq!(second[0].command.as_deref(), Some("printf old"));
    assert_eq!(second[0].exit_code, Some(0));
    assert_eq!(second[0].duration_ms, Some(1500));
}

#[test]
fn an_event_completes_its_call() {
    let content = [
        "{\"type\":\"response_item\",\"payload\":{\"type\":\"function_call\",\"name\":\"exec_command\",\"call_id\":\"c\",\"status\":\"started\",\"arguments\":\"{\\\"cmd\\\":\\\"ls\\\",\\\"cwd\\\":\\\"/a\\\"}\"}}",
        "{\"type\":\"event_msg\",\"payload\":{\"type\":\"exec_command_end\",\"call_id\":\"c\",\"command\":[\"sh\",\"-c\",\"ls -l\"],\"exit_code\":3,\"stdout\":\"out\"}}",
        "{\"type\":\"event_msg\",\"payload\":{\"type\":\"exec_command_end\",\"cmd\":\"pwd\",\"stderr\":\"err\"}}",
        "{\"type\":\"event_msg\",\"payload\":{\"type\":\"exec_command_end\",\"call_id\":\"d\",\"command\":[]}}",
    ];
    let rows: Vec<String> = content.iter().map(|row| row.to_string()).collect();
    let index = index_rollout(&rows, true, Some("t".to_string()), "r", 10);
    assert_eq!(index.tool_calls.len(), 1);
    let runs = &index.command_executions;
    assert_eq!(runs.len(), 3);
    assert_eq!(runs[0].command.as_deref(), Some("ls -l"));
    assert_eq!(runs[0].cwd.as_deref(), Some("/a"));
    assert_eq!(runs[0].status.as_deref(), Some("started"));
    assert_eq!(runs[0].exit_code, Some(3));
    assert_eq!(runs[0].call_line, Some(1));
    assert_eq!(runs[0].event_line, Some(2));
    assert_eq!(runs[0].execution_kind, "shell");
    assert_eq!(runs[1].call_id.as_deref(), Some("d"));
    assert_eq!(runs[1].command, None);
    assert_eq!(runs[1].output_preview, None);
    assert_eq!(runs[1].output_bytes, Some(0));
    assert_eq!(runs[2].command.as_deref(), Some("pwd"));
    assert_eq!(runs[2].output_preview.as_deref(), Some("err"));
    assert_eq!(runs[2].thread_id.as_deref(), Some("t"));
}

#[test]
fn an_unreadable_rollout_is_an_error() {
    let rows = vec!["{\"payload\":{\"type\":\"function_call\",\"name\":\"x\"}}".to_string()];
    let index = index_rollout(&rows, false, None, "r", 10);
    assert!(!index.readable);
    assert!(index.tool_calls.is_empty());
    assert_eq!(index.json_lines_read, 1);
    let summary = refresh_history_index(
        String::new(),
        String::new(),
        &vec![IndexedRollout { live: true, index }],
    );
    assert_eq!(summary.errors, 1);
    assert_eq!(summary.tool_calls_indexed, 0);
    assert_eq!(summary.json_lines_read, 1);
}

#[test]
fn outputs_belong_to_the_last_call_of_their_id() {
    let rows: Vec<String> = [
        "{\"payload\":{\"type\":\"function_call\",\"name\":\"a\",\"call_id\":\"c\"}}",
        "{\"payload\":{\"type\":\"function_call\",\"name\":\"b\",\"call_id\":\"c\"}}",
        "{\"payload\":{\"type\":\"function_call_output\",\"call_id\":\"c\",\"output\":{\"k\":1}}}",
        "{\"payload\":{\"type\":\"function_call_output\",\"call_id\":\"other\",\"output\":\"x\"}}",
    ]
    .iter()
    .map(|row| row.to_string())
    .collect();
    let scan = scan_rollout(&rows, None, "r", 10);
    assert_eq!(scan.calls.len(), 2);
    assert_eq!(scan.calls[0].output_preview, None);
    assert_eq!(scan.calls[1].output_preview.as_deref(), Some("{\"k\":1}"));
    assert_eq!(scan.calls[1].output_bytes, Some(7));
    assert_eq!(scan.json_lines_read, 4);
    assert_eq!(scan.malformed_lines, 0);
}

#[test]
fn previews_are_cut_by_characters() {
    assert_eq!(preview_text("", 3), (None, 0));
    assert_eq!(preview_text("abc", 3), (Some("abc".to_string()), 3));
    assert_eq!(
        preview_text("äöüß", 3),
        (Some("äöü\n[truncated]".to_string()), 8)
    );
    assert_eq!(preview_text("a", 0), (Some("\n[truncated]".to_string()), 1));
}

#[test]
fn commands_are_found_by_tool() {
    let args = parse("{\"cmd\":\"ls\",\"chars\":\"a\\n\\\"\"}");
    assert_eq!(
        extract_command("exec_command", &args, "raw").as_deref(),
        Some("ls")
    );
    assert_eq!(
        extract_command("write_stdin", &args, "raw").as_deref(),
        Some("stdin: a\\n\\\"")
    );
    assert_eq!(
        extract_command("exec", &None, "raw").as_deref(),
        Some("raw")
    );
    assert_eq!(extract_command("exec_command", &None, "raw"), None);
    assert_eq!(extract_command("apply_patch", &args, "raw"), None);
    assert!(is_execution_tool("write_stdin"));
    assert!(!is_execution_tool("apply_patch"));
}

#[test]
fn arguments_are_objects_or_texts_that_hold_json() {
    let text = parse("\"{\\\"a\\\":1}\"").unwrap();
    assert_eq!(
        parse_argument_value(Some(&text)).unwrap().render(),
        "{\"a\":1}"
    );
    let object = parse("{\"a\":[2]}").unwrap();
    assert_eq!(
        parse_argument_value(Some(&object)).unwrap().render(),
        "{\"a\":[2]}"
    );
    assert!(parse_argument_value(Some(&parse("[1]").unwrap())).is_none());
    assert!(parse_argument_value(Some(&parse("\"no\"").unwrap())).is_none());
    assert!(parse_argument_value(None).is_none());
    assert_eq!(value_to_text(&parse("\"x\"").unwrap()), "x");
    assert_eq!(value_to_text(&parse("[1, 2]").unwrap()), "[1,2]");
}

#[test]
fn durations_are_in_milliseconds() {
    let ms = |text: &str| duration_ms(Some(&parse(text).unwrap()));
    assert_eq!(duration_ms(None), None);
    assert_eq!(ms("{\"millis\":7,\"secs\":9}"), Some(7));
    assert_eq!(ms("{\"secs\":1,\"nanos\":500000000}"), Some(1500));
    assert_eq!(ms("{\"nanos\":999999}"), Some(0));
    assert_eq!(ms("{}"), Some(0));
    assert_eq!(
        ms("{\"secs\":18446744073709551615,\"nanos\":1}"),
        Some(u64::MAX)
    );
}

#[test]
fn threads_are_named_by_the_metadata_or_the_file() {
    assert_eq!(
        session_meta_id(&parse("{\"type\":\"session_meta\",\"payload\":{\"id\":\"t\"}}").unwrap())
            .as_deref(),
        Some("t")
    );
    assert_eq!(
        session_meta_id(&parse("{\"type\":\"other\",\"payload\":{\"id\":\"t\"}}").unwrap()),
        None
    );
    assert_eq!(
        thread_id_from_rollout_name("rollout-2026-06-14T01-02-03-thread-live.jsonl").as_deref(),
        Some("thread-live")
    );
    assert_eq!(thread_id_from_rollout_name("rollout-short.jsonl"), None);
    assert_eq!(thread_id_from_rollout_name("notes.jsonl"), None);
}
