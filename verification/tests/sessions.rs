use serde_json::Value;
use ucp::history::HistoryIndexSummary;
use ucp::reports::{database_lines, history_line, repair_lines, sync_notice};
use ucp::sessions::{
    is_rollout_name, is_valid_tool_name, normalize_tool_name, process_session,
    process_session_metadata, prune_session_backups, repair_line, repair_rollout,
    repair_session_history, rewrite_metadata_line, sqlite_files, sqlite_sidecar_path,
    sync_rollout_files, thread_update, time_of_backup, unify_sessions, update_sessions_db, DbUpdateSummary,
    LineRepair, RolloutOutcome, RolloutRepair, SessionRepairSummary, SessionSyncOptions,
    SessionSyncSummary, UnreadableRow,
};

fn rows_of(content: &str) -> Vec<Value> {
    content
        .lines()
        .filter_map(|line| serde_json::from_str(line).ok())
        .collect()
}

fn texts(items: &[&str]) -> Vec<String> {
    items.iter().map(|item| item.to_string()).collect()
}

#[test]
fn updates_all_existing_provider_and_model_fields() {
    let content = [
        "{\"type\":\"session_meta\",\"payload\":{\"model_provider\":\"a2o_proxy\",\"model\":null}}\n",
        "{\"type\":\"session_meta\",\"payload\":{\"model_provider\":\"openai\",\"model\":\"gpt-5.4\"}}\n",
        "{\"type\":\"turn_context\",\"payload\":{\"model\":\"gpt-5.5-pro\"}}\n",
        "{\"type\":\"event_msg\",\"payload\":{\"model_provider\":null,\"model\":null}}\n",
    ]
    .concat();

    let changed = process_session(&content, "newapi", "gpt-5.5").unwrap().unwrap();
    assert_eq!(changed.lines_updated, 3);

    let rows: Vec<Value> = changed
        .content
        .lines()
        .map(|line| serde_json::from_str(line).unwrap())
        .collect();

    assert_eq!(rows[0]["payload"]["model_provider"], "newapi");
    assert!(rows[0]["payload"]["model"].is_null());
    assert_eq!(rows[1]["payload"]["model_provider"], "newapi");
    assert_eq!(rows[1]["payload"]["model"], "gpt-5.5");
    assert_eq!(rows[2]["payload"]["model"], "gpt-5.5");
    assert!(rows[3]["payload"]["model_provider"].is_null());
}

#[test]
fn updates_nested_collaboration_mode_model_fields() {
    let content = [
        "{\"type\":\"turn_context\",\"payload\":{\"model\":\"gpt-5.4\",\"collaboration_mode\":{\"settings\":{\"model\":\"gpt-5.5-pro\",\"reasoning_effort\":\"high\"}}}}\n",
        "{\"type\":\"event_msg\",\"payload\":{\"collaboration_mode\":{\"settings\":{\"model\":\"gpt-5.5-max\"}}}}\n",
    ]
    .concat();

    let changed = process_session(&content, "switch", "gpt-5.5").unwrap();
    assert!(changed.is_some());

    let rows: Vec<Value> = changed
        .unwrap()
        .content
        .lines()
        .map(|line| serde_json::from_str(line).unwrap())
        .collect();

    assert_eq!(rows[0]["payload"]["model"], "gpt-5.5");
    assert_eq!(
        rows[0]["payload"]["collaboration_mode"]["settings"]["model"],
        "gpt-5.5"
    );
    assert_eq!(
        rows[1]["payload"]["collaboration_mode"]["settings"]["model"],
        "gpt-5.5"
    );
    assert_eq!(
        rows[0]["payload"]["collaboration_mode"]["settings"]["reasoning_effort"],
        "high"
    );
}

#[test]
fn metadata_sync_does_not_materialize_display_projections() {
    let content = [
        "{\"type\":\"session_meta\",\"payload\":{\"model_provider\":\"target\",\"model\":\"gpt-5.5\"}}\n",
        "{\"timestamp\":\"2026-06-14T01:02:08Z\",\"type\":\"event_msg\",\"payload\":{\"type\":\"mcp_tool_call_end\",\"call_id\":\"call_mcp\",\"invocation\":{\"server\":\"codex_app\",\"tool\":\"read_thread_terminal\",\"arguments\":{\"limit\":10}},\"result\":{\"Ok\":\"terminal output\"}}}\n",
        "{\"timestamp\":\"2026-06-14T01:02:10Z\",\"type\":\"event_msg\",\"payload\":{\"type\":\"dynamic_tool_call_request\",\"callId\":\"call_dynamic\",\"namespace\":\"codex_app\",\"tool\":\"load_workspace_dependencies\",\"arguments\":{\"include\":\"runtime\"}}}\n",
        "{\"timestamp\":\"2026-06-14T01:02:11Z\",\"type\":\"event_msg\",\"payload\":{\"type\":\"dynamic_tool_call_response\",\"call_id\":\"call_dynamic\",\"tool\":\"load_workspace_dependencies\",\"success\":true,\"content_items\":[{\"text\":\"deps loaded\"}]}}\n",
        "{\"timestamp\":\"2026-06-14T01:02:13Z\",\"type\":\"event_msg\",\"payload\":{\"type\":\"exec_command_output\",\"call_id\":\"call_stream\",\"stdout\":\"streamed output\"}}\n",
        "{\"timestamp\":\"2026-06-14T01:02:14Z\",\"type\":\"event_msg\",\"payload\":{\"type\":\"exec_command_end\",\"call_id\":\"call_end\",\"command\":[\"/bin/zsh\",\"-lc\",\"printf done\"],\"aggregated_output\":\"aggregated only\",\"formatted_output\":\"formatted duplicate\",\"status\":\"completed\"}}\n",
    ]
    .concat();

    assert!(process_session_metadata(&content, "target", "gpt-5.5").is_none());

    let rows = rows_of(&content);
    assert!(rows
        .iter()
        .any(|row| row["type"] == "event_msg" && row["payload"]["type"] == "mcp_tool_call_end"));
    assert!(rows
        .iter()
        .all(|row| row["payload"]["ucp_display_projection"] != true));

    let changed = process_session_metadata(&content, "other", "gpt-5.5").unwrap();
    assert_eq!(changed.lines_updated, 1);
    let changed_rows = rows_of(&changed.content);
    assert_eq!(changed_rows.len(), rows.len());
    assert_eq!(changed_rows[0]["payload"]["model_provider"], "other");
    assert_eq!(changed_rows[1..], rows[1..]);
    assert!(process_session_metadata(&changed.content, "other", "gpt-5.5").is_none());
}

#[test]
fn repairs_incompatible_tool_rows_with_backup_and_preserved_mtime() {
    let original = [
        "{\"type\":\"session_meta\",\"payload\":{\"model_provider\":\"target\"}}\n",
        "{\"type\":\"response_item\",\"payload\":{\"type\":\"custom_tool_call\",\"name\":\"computer-use.click\",\"call_id\":\"projection-call\",\"input\":\"{}\",\"ucp_display_projection\":true}}\n",
        "{\"type\":\"response_item\",\"payload\":{\"type\":\"custom_tool_call_output\",\"call_id\":\"projection-call\",\"output\":\"ok\",\"ucp_display_projection\":true}}\n",
        "{\"type\":\"response_item\",\"payload\":{\"type\":\"custom_tool_call\",\"name\":\"computer-use.get_app_state\",\"call_id\":\"native-call\",\"input\":\"{}\"}}\n",
        "{\"type\":\"response_item\",\"payload\":{\"type\":\"custom_tool_call_output\",\"call_id\":\"native-call\",\"output\":\"ok\"}}\n",
        "not json\n",
    ]
    .concat();

    let repair = repair_rollout(&original);
    assert!(repair.affected());
    assert_eq!(repair.projection_rows_removed, 2);
    assert_eq!(repair.invalid_names_normalized, 1);

    let repaired = repair.content.unwrap();
    assert!(!repaired.contains("ucp_display_projection"));
    assert!(repaired.contains("\"name\":\"computer-use_get_app_state\""));
    assert!(repaired.contains("\"call_id\":\"native-call\""));
    assert!(repaired.contains("not json"));

    let second = repair_rollout(&repaired);
    assert!(!second.affected());
    assert_eq!(second.projection_rows_removed, 0);
    assert_eq!(second.invalid_names_normalized, 0);
    assert_eq!(second.content, None);
}

#[test]
fn normalizes_tool_names_to_the_responses_api_character_set() {
    assert_eq!(
        normalize_tool_name("computer-use.click"),
        "computer-use_click"
    );
    assert_eq!(
        normalize_tool_name("btt::run javascript"),
        "btt_run_javascript"
    );
    assert_eq!(normalize_tool_name("工具"), "legacy_tool");
    assert_eq!(normalize_tool_name("already_valid-1"), "already_valid-1");
}

#[test]
fn tool_names_are_valid_after_normalization() {
    for name in ["", "a.b", "..", "_x_", "é", "mcp__node_repl.js", "a b c"] {
        let normalized = normalize_tool_name(name);
        assert!(is_valid_tool_name(&normalized), "{name}");
        assert_eq!(normalize_tool_name(&normalized), normalized);
    }
    assert!(!is_valid_tool_name(""));
    assert!(!is_valid_tool_name("a.b"));
    assert!(is_valid_tool_name("a-b_C9"));
    assert_eq!(normalize_tool_name("_x_"), "x");
    assert_eq!(normalize_tool_name("a..b"), "a_b");
    assert_eq!(normalize_tool_name("a_.b"), "a__b");
}

#[test]
fn test_switch_syncs_rollout_metadata_only_by_default_and_updates_db() {
    let event_line = "{\"type\":\"event_msg\",\"payload\":{\"type\":\"exec_command_output\",\"stdout\":\"tool output stays\",\"collaboration_mode\":{\"settings\":{\"model\":\"gpt-5.4\"}}}}";
    let rollout = format!(
        "{}\n{}\nnot json but should remain untouched\n{}\n",
        "{\"type\":\"session_meta\",\"payload\":{\"model_provider\":\"old\",\"model\":null}}",
        "{\"type\":\"turn_context\",\"payload\":{\"model\":\"gpt-5.4\",\"collaboration_mode\":{\"settings\":{\"model\":\"gpt-5.4\",\"reasoning_effort\":\"high\"}}}}",
        event_line
    );
    let original_lines: Vec<&str> = rollout.lines().collect();

    let changed = process_session_metadata(&rollout, "target", "gpt-5.5").unwrap();
    assert_eq!(changed.lines_updated, 2);
    let rows = rows_of(&changed.content);
    assert_eq!(rows[0]["payload"]["model_provider"], "target");
    assert_eq!(rows[1]["payload"]["model"], "gpt-5.5");
    assert_eq!(
        rows[1]["payload"]["collaboration_mode"]["settings"]["model"],
        "gpt-5.5"
    );
    let new_lines: Vec<&str> = changed.content.lines().collect();
    assert_eq!(new_lines[2], original_lines[2]);
    assert_eq!(new_lines[3], original_lines[3]);
    assert_eq!(new_lines.len(), original_lines.len());

    assert_eq!(
        thread_update(
            &Some("old".to_string()),
            &Some("gpt-5.4".to_string()),
            "target",
            "gpt-5.5"
        ),
        Some(("target".to_string(), Some("gpt-5.5".to_string())))
    );
    assert!(sync_notice(&SessionSyncOptions::default()).contains("metadata rows only"));
}

#[test]
fn test_sync_rewrites_rollout_jsonl_only_with_explicit_flag() {
    let rollout = [
        "{\"type\":\"session_meta\",\"payload\":{\"model_provider\":\"old\",\"model\":\"gpt-5.4\"}}\n",
        "{\"type\":\"turn_context\",\"payload\":{\"model\":\"gpt-5.4\",\"collaboration_mode\":{\"settings\":{\"model_provider\":\"old\",\"model\":\"gpt-5.4\"}}}}\n",
        "{\"type\":\"event_msg\",\"payload\":{\"collaboration_mode\":{\"settings\":{\"model\":\"gpt-5.4\"}}}}\n",
    ]
    .concat();

    let rewritten = process_session(&rollout, "target", "gpt-5.5")
        .unwrap()
        .unwrap()
        .content;
    assert!(rewritten.contains("\"model_provider\":\"target\""));
    assert!(rewritten.contains("\"model\":\"gpt-5.5\""));
    assert!(!rewritten.contains("\"model_provider\":\"old\""));
    assert!(!rewritten.contains("\"model\":\"gpt-5.4\""));

    let kept = process_session_metadata(&rollout, "target", "gpt-5.5")
        .unwrap()
        .content;
    assert!(kept.contains("\"model\":\"gpt-5.4\""));

    let options = SessionSyncOptions {
        full_rollout_rewrite: true,
    };
    assert!(sync_notice(&options).contains("--rewrite-rollouts is enabled"));
}

#[test]
fn test_repair_sessions_dry_run_then_apply_with_backup() {
    let original = [
        "{\"type\":\"response_item\",\"payload\":{\"type\":\"custom_tool_call\",\"name\":\"computer-use.click\",\"call_id\":\"projection-call\",\"input\":\"{}\",\"ucp_display_projection\":true}}\n",
        "{\"type\":\"response_item\",\"payload\":{\"type\":\"custom_tool_call_output\",\"call_id\":\"projection-call\",\"output\":\"ok\",\"ucp_display_projection\":true}}\n",
        "{\"type\":\"response_item\",\"payload\":{\"type\":\"custom_tool_call\",\"name\":\"node_repl.js\",\"call_id\":\"native-call\",\"input\":\"{}\"}}\n",
        "{\"type\":\"response_item\",\"payload\":{\"type\":\"custom_tool_call_output\",\"call_id\":\"native-call\",\"output\":\"ok\"}}\n",
    ]
    .concat();

    let outcomes = vec![Some(repair_rollout(&original))];
    let dry_run = repair_session_history(&outcomes, false, "backup".to_string());
    let dry_text = repair_lines(&dry_run, false).join("\n");
    assert!(dry_text.contains("1 affected, 0 repaired"));
    assert!(dry_text.contains("Dry-run only"));
    assert_eq!(dry_run.backup_dir, None);

    let applied = repair_session_history(&outcomes, true, "backup".to_string());
    let applied_text = repair_lines(&applied, true).join("\n");
    assert!(applied_text.contains("1 affected, 1 repaired"));
    assert!(applied_text.contains("2 UCP display projection(s) removed"));
    assert!(applied_text.contains("1 invalid tool name(s) normalized"));
    assert!(applied_text.contains("  Backup: backup"));
    assert!(!applied_text.contains("Dry-run only"));

    let repaired = outcomes[0].as_ref().unwrap().content.clone().unwrap();
    assert!(!repaired.contains("ucp_display_projection"));
    assert!(repaired.contains("\"name\":\"node_repl_js\""));
    assert!(repaired.contains("\"call_id\":\"native-call\""));
}

#[test]
fn test_sqlite_backup_includes_wal_shm_and_prunes_old_backups() {
    assert_eq!(
        sqlite_files("/home/me/.codex/state_5.sqlite"),
        texts(&[
            "/home/me/.codex/state_5.sqlite",
            "/home/me/.codex/state_5.sqlite-wal",
            "/home/me/.codex/state_5.sqlite-shm",
        ])
    );
    assert_eq!(
        sqlite_sidecar_path("/x/state_5.sqlite", "-wal"),
        "/x/state_5.sqlite-wal"
    );

    let names = texts(&[
        ".sessions_backup_20000103_000000",
        ".sessions_backup_20000101_000000",
        ".sessions_backup_20260614_010203",
        "sessions",
        ".sessions_backup_20000104_000000",
        ".sessions_backup_20000102_000000",
    ]);
    assert_eq!(
        prune_session_backups(names, 3),
        texts(&[
            ".sessions_backup_20000101_000000",
            ".sessions_backup_20000102_000000",
        ])
    );
    assert_eq!(
        prune_session_backups(texts(&[".sessions_backup_1", "x"]), 1),
        Vec::<String>::new()
    );
}

#[test]
fn backups_of_every_kind_are_pruned_by_their_time() {
    assert_eq!(
        prune_session_backups(
            texts(&[
                ".sessions_backup_repair_20250101_000000_000000000",
                ".sessions_backup_20260101_000000",
            ]),
            1
        ),
        texts(&[".sessions_backup_repair_20250101_000000_000000000"])
    );
    assert_eq!(
        prune_session_backups(
            texts(&[
                ".sessions_backup_repair_20260301_000000_000000000",
                ".sessions_backup_20260401_000000",
                ".sessions_backup_injections_20260201_000000_000000000",
                ".sessions_backup_20260101_000000",
            ]),
            2
        ),
        texts(&[
            ".sessions_backup_20260101_000000",
            ".sessions_backup_injections_20260201_000000_000000000",
        ])
    );
    assert_eq!(time_of_backup(".sessions_backup_repair_2025_01"), "2025_01");
    assert_eq!(time_of_backup(".sessions_backup_2025_01"), "2025_01");
    assert_eq!(time_of_backup(".sessions_backup_odd"), "odd");
}

#[test]
fn metadata_sync_keeps_line_ends_and_rows_without_one() {
    let content = "{\"type\":\"event_msg\",\"payload\":{\"model\":\"old\"}}\r\n\r\n{\"type\":\"session_meta\",\"payload\":{\"model_provider\":\"old\"}}\r\nlast";
    let changed = process_session_metadata(content, "new", "m").unwrap();
    assert_eq!(
        changed.content,
        "{\"type\":\"event_msg\",\"payload\":{\"model\":\"old\"}}\r\n\r\n{\"payload\":{\"model_provider\":\"new\"},\"type\":\"session_meta\"}\r\nlast"
    );
    assert_eq!(changed.lines_updated, 1);
}

#[test]
fn a_row_without_metadata_is_kept() {
    for line in [
        "",
        "not json",
        "\"session_meta\"",
        "{\"type\":\"response_item\",\"payload\":{\"model\":\"old\",\"note\":\"session_meta\"}}",
        "{\"type\":\"session_meta\",\"payload\":[]}",
        "{\"type\":\"session_meta\",\"payload\":{\"model\":\"\"}}",
        "{\"type\":\"session_meta\"}",
    ] {
        assert_eq!(rewrite_metadata_line(line, "p", "m"), None, "{line}");
    }
    assert_eq!(
        rewrite_metadata_line(
            "{\"type\":\"turn_context\",\"payload\":{\"model\":\"old\",\"n\":1.50}}",
            "p",
            "m"
        ),
        Some("{\"payload\":{\"model\":\"m\",\"n\":1.5},\"type\":\"turn_context\"}".to_string())
    );
}

#[test]
fn a_full_rewrite_needs_readable_rows() {
    let stale = "{\"payload\":{\"model\":\"old\"}}";
    assert_eq!(process_session("", "p", "m"), Ok(None));
    assert_eq!(process_session("not json\n", "p", "m"), Ok(None));
    assert_eq!(
        process_session(&format!("{stale}\nnot json\n"), "p", "m"),
        Err(UnreadableRow { line: 1 })
    );
    let rewritten = process_session(&format!("{stale}\r\n{{ \"a\": 1 }}"), "p", "m")
        .unwrap()
        .unwrap();
    assert_eq!(
        rewritten.content,
        "{\"payload\":{\"model\":\"m\"}}\n{\"a\":1}"
    );
    assert_eq!(rewritten.lines_updated, 1);
    assert_eq!(process_session(&rewritten.content, "p", "m"), Ok(None));
}

#[test]
fn repaired_lines_keep_what_they_are() {
    assert!(matches!(repair_line("not json"), LineRepair::Keep));
    assert!(matches!(
        repair_line("{\"type\":\"event_msg\",\"payload\":{\"ucp_display_projection\":true}}"),
        LineRepair::Keep
    ));
    assert!(matches!(
        repair_line("{\"type\":\"response_item\",\"payload\":{\"ucp_display_projection\":true}}"),
        LineRepair::Remove
    ));
    assert!(matches!(
        repair_line("{\"type\":\"response_item\",\"payload\":{\"type\":\"message\",\"name\":\"a.b\"}}"),
        LineRepair::Keep
    ));
    assert_eq!(
        repair_line("{\"type\":\"response_item\",\"payload\":{\"type\":\"function_call\",\"name\":\"a.b\",\"arguments\":\"x.y\"}}"),
        LineRepair::Replace(
            "{\"payload\":{\"arguments\":\"x.y\",\"name\":\"a_b\",\"type\":\"function_call\"},\"type\":\"response_item\"}".to_string()
        )
    );
}

#[test]
fn rollouts_are_known_by_name() {
    assert!(is_rollout_name("rollout-test.jsonl"));
    assert!(!is_rollout_name("rollout-test.json"));
    assert!(!is_rollout_name("x-rollout-test.jsonl"));
}

#[test]
fn threads_follow_the_profile() {
    let old = Some("old".to_string());
    let none: Option<String> = None;
    assert_eq!(
        thread_update(&none, &none, "p", "m"),
        Some(("p".to_string(), None))
    );
    assert_eq!(
        thread_update(&old, &Some(String::new()), "p", "m"),
        Some(("p".to_string(), Some(String::new())))
    );
    assert_eq!(
        thread_update(&Some("p".to_string()), &old, "p", "m"),
        Some(("p".to_string(), Some("m".to_string())))
    );
    assert_eq!(thread_update(&Some("p".to_string()), &none, "p", "m"), None);
    assert_eq!(
        thread_update(&Some("p".to_string()), &Some("m".to_string()), "p", "m"),
        None
    );
}

#[test]
fn outcomes_are_summed_up() {
    let rollouts = vec![
        RolloutOutcome::Modified(2),
        RolloutOutcome::Skipped,
        RolloutOutcome::Failed,
        RolloutOutcome::Modified(3),
    ];
    let mut summary = SessionSyncSummary::default();
    summary.rollouts_skipped = 5;
    sync_rollout_files(&rollouts, &mut summary);
    assert_eq!(summary.rollouts_modified, 2);
    assert_eq!(summary.rollouts_skipped, 6);
    assert_eq!(summary.rollout_errors, 1);
    assert_eq!(summary.metadata_lines_updated, 5);

    let databases = update_sessions_db(&vec![
        Some(DbUpdateSummary {
            records_updated: 4,
            backup_files: 3,
            errors: 0,
        }),
        None,
        Some(DbUpdateSummary {
            records_updated: 1,
            backup_files: 1,
            errors: 2,
        }),
    ]);
    assert_eq!(
        databases,
        DbUpdateSummary {
            records_updated: 5,
            backup_files: 4,
            errors: 3,
        }
    );

    let history = Some(HistoryIndexSummary {
        generated_at: String::new(),
        rollouts_scanned: 2,
        live_rollouts: 1,
        archived_rollouts: 1,
        json_lines_read: 6,
        malformed_lines: 1,
        tool_calls_indexed: 4,
        command_executions_indexed: 2,
        output_previews_indexed: 2,
        errors: 0,
        index_dir: String::new(),
    });
    let whole = unify_sessions(&rollouts, &databases, &history);
    assert_eq!(
        whole,
        SessionSyncSummary {
            rollouts_modified: 2,
            rollouts_skipped: 1,
            rollout_errors: 1,
            metadata_lines_updated: 5,
            db_records_updated: 5,
            db_backup_files: 4,
            db_errors: 3,
            history_rollouts_scanned: 2,
            history_tool_calls_indexed: 4,
            history_command_executions_indexed: 2,
            history_errors: 0,
        }
    );
    assert!(whole.keeps_backup());
    assert_eq!(
        history_line(&whole),
        "  History index: 2 rollout(s), 4 tool call(s), 2 command execution(s)"
    );
    assert_eq!(
        database_lines(&whole, "/b"),
        texts(&[
            "  Database: updated 5 thread records",
            "  Database backups: copied 4 file(s) to /b",
        ])
    );

    let nothing = DbUpdateSummary {
        records_updated: 0,
        backup_files: 0,
        errors: 0,
    };
    let quiet = unify_sessions(&vec![RolloutOutcome::Skipped], &nothing, &None);
    assert_eq!(quiet.history_errors, 1);
    assert!(!quiet.keeps_backup());
    assert!(database_lines(&quiet, "/b").is_empty());
}

#[test]
fn failed_repairs_are_counted() {
    let outcomes = vec![
        None,
        Some(RolloutRepair {
            content: None,
            projection_rows_removed: 0,
            invalid_names_normalized: 0,
        }),
    ];
    assert_eq!(
        repair_session_history(&outcomes, true, "b".to_string()),
        SessionRepairSummary {
            rollouts_scanned: 2,
            rollouts_affected: 0,
            rollouts_repaired: 0,
            projection_rows_removed: 0,
            invalid_names_normalized: 0,
            errors: 1,
            backup_dir: None,
        }
    );
}

#[test]
fn a_second_repair_finds_nothing() {
    let projection = "{\"type\":\"response_item\",\"payload\":{\"ucp_display_projection\":true}}";
    let misnamed = "{\"type\":\"response_item\",\"payload\":{\"type\":\"function_call\",\"name\":\"a b\"}}";
    for content in [
        format!("{projection}\n{misnamed}\n\nplain\r\r\n"),
        format!("{misnamed}\r\n{projection}"),
        format!("{projection}\n"),
        format!("\n{projection}"),
    ] {
        let first = repair_rollout(&content);
        let repaired = first.content.unwrap();
        let second = repair_rollout(&repaired);
        assert!(second.content.is_none());
        assert_eq!(second.projection_rows_removed, 0);
        assert_eq!(second.invalid_names_normalized, 0);
    }
}
