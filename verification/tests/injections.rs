use serde_json::Value;
use ucp::injections::{
    canonical_rollout, checkpoint_to_move, is_valid_thread_id, moved_checkpoint,
    repair_injected_content, repair_injected_file, repair_injected_items, repair_injected_line,
    repair_with_deferred, select_entry, session_identity, translated_offset,
    unchanged_during_repair, writer_guard, Age, FileOutcome, RepairError, Selection,
    SessionIdentity, WalkEntry, REPAIR_VERSION,
};

fn text(s: &str) -> Value {
    Value::String(s.to_string())
}

fn object(members: Vec<(&str, Value)>) -> Value {
    let mut map = serde_json::Map::new();
    for (key, value) in members {
        map.insert(key.to_string(), value);
    }
    Value::Object(map)
}

#[test]
fn repairs_compacted_history_without_touching_arguments_or_ui_events() {
    let items = Value::Array(vec![
        object(vec![
            ("type", text("function_call")),
            ("name", text("mcp__tools::exec_command")),
            ("call_id", text("call_1")),
            ("arguments", text("{\"name\":\"a.b\"}")),
        ]),
        object(vec![
            ("type", text("custom_tool_call")),
            ("name", text("mcp__node_repl.js")),
            ("call_id", text("call_2")),
            ("input", text("original")),
        ]),
        object(vec![
            ("type", text("function_call_output")),
            ("call_id", text("call_1")),
            ("output", text("ok")),
        ]),
        object(vec![
            ("type", text("message")),
            ("id", text("fco_legacy")),
            ("role", text("user")),
            (
                "content",
                Value::Array(vec![object(vec![
                    ("type", text("input_text")),
                    ("text", text("all original text")),
                ])]),
            ),
        ]),
    ]);
    let original = object(vec![
        ("type", text("compacted")),
        (
            "payload",
            object(vec![
                ("replacement_history", items.clone()),
                ("message", text("summary")),
            ]),
        ),
    ]);
    let fixed = repair_injected_line(&original.to_string()).unwrap();
    let value: Value = serde_json::from_str(&fixed).unwrap();
    let history = &value["payload"]["replacement_history"];
    assert_eq!(history[0]["name"], "mcp__tools_exec_command");
    assert_eq!(history[1]["name"], "mcp__node_repl_js");
    assert_eq!(history[0]["arguments"], items[0]["arguments"]);
    assert_eq!(history[0]["call_id"], items[0]["call_id"]);
    assert_eq!(history[2], items[2]);
    assert_eq!(history[3]["id"], "msg_legacy");
    assert_eq!(history[3]["content"], items[3]["content"]);
    assert!(repair_injected_line(&fixed).is_none());
    let ui = object(vec![("type", text("event_msg")), ("payload", items.clone())]);
    assert!(repair_injected_line(&ui.to_string()).is_none());
    for item in items.as_array().unwrap().iter().take(2) {
        let row = object(vec![("type", text("response_item")), ("payload", item.clone())]);
        assert!(repair_injected_line(&row.to_string()).is_some());
    }
}

#[test]
fn keeps_unknown_orphans_and_real_function_calls() {
    for item in [
        object(vec![
            ("type", text("function_call")),
            ("name", text("run")),
            ("arguments", text("valuable")),
        ]),
        object(vec![
            ("type", text("function_call_output")),
            ("output", text("valuable")),
        ]),
        object(vec![
            ("type", text("custom_tool_call_output")),
            (
                "output",
                Value::Array(vec![object(vec![
                    ("type", text("image")),
                    ("data", text("valuable")),
                ])]),
            ),
        ]),
    ] {
        let row = object(vec![("type", text("response_item")), ("payload", item)]);
        assert!(repair_injected_line(&row.to_string()).is_none());
    }
}

#[test]
fn translates_partial_projection_checkpoints_at_record_boundaries() {
    let changes = [(10, 20, 15), (30, 50, 12)];
    assert_eq!(translated_offset(0, &changes).unwrap(), 0);
    assert_eq!(translated_offset(10, &changes).unwrap(), 10);
    assert_eq!(translated_offset(20, &changes).unwrap(), 25);
    assert_eq!(translated_offset(25, &changes).unwrap(), 30);
    assert_eq!(translated_offset(50, &changes).unwrap(), 47);
    assert!(translated_offset(15, &changes).is_err());
}

#[test]
fn rewrites_orphan_function_call_output() {
    let line = r#"{"timestamp":"2026-09-16T09:32:07Z","ordinal":1,"type":"response_item","payload":{"type":"function_call_output","id":"fco_1","name":"automation_update","namespace":"codex_app","output":"<heartbeat>go</heartbeat>"}}"#;
    let repaired = repair_injected_line(line).expect("line is repaired");
    let value: Value = serde_json::from_str(&repaired).expect("valid json");
    let payload = value.get("payload").expect("payload");
    assert_eq!(
        payload.get("type").and_then(|v| v.as_str()),
        Some("message")
    );
    assert_eq!(payload.get("role").and_then(|v| v.as_str()), Some("user"));
    assert_eq!(payload.get("id").and_then(|v| v.as_str()), Some("msg_1"));
    assert_eq!(
        payload
            .get("content")
            .and_then(|content| content.get(0))
            .and_then(|item| item.get("text"))
            .and_then(|text| text.as_str()),
        Some("<heartbeat>go</heartbeat>")
    );
    assert_eq!(value["timestamp"], "2026-09-16T09:32:07Z");
    assert_eq!(value["ordinal"], 1);
}

#[test]
fn keeps_paired_outputs_and_other_rows() {
    let paired = r#"{"type":"response_item","payload":{"type":"function_call_output","call_id":"call_1","output":"ok"}}"#;
    assert!(repair_injected_line(paired).is_none());
    let message =
        r#"{"type":"response_item","payload":{"type":"message","role":"user","content":[]}}"#;
    assert!(repair_injected_line(message).is_none());
    let meta = r#"{"type":"session_meta","payload":{"id":"thread"}}"#;
    assert!(repair_injected_line(meta).is_none());
    let garbage = "not json";
    assert!(repair_injected_line(garbage).is_none());
}

#[test]
fn repairs_previous_message_ids_without_changing_text() {
    let line = r#"{"type":"response_item","payload":{"type":"message","id":"fco_123","role":"user","content":[{"type":"input_text","text":"heartbeat"}]}}"#;
    let fixed = repair_injected_line(line).unwrap();
    let mut expected: Value = serde_json::from_str(line).unwrap();
    expected["payload"]["id"] = "msg_123".into();
    assert_eq!(serde_json::from_str::<Value>(&fixed).unwrap(), expected);
    assert!(repair_injected_line(&fixed).is_none());
}

#[test]
fn preserves_foreign_reasoning_as_analysis_but_keeps_native_encryption() {
    let mut value = object(vec![
        ("type", text("response_item")),
        (
            "payload",
            object(vec![
                ("type", text("reasoning")),
                ("id", text("49128d42-2f71-41a0-86df-ec01ad9b475d")),
                (
                    "summary",
                    Value::Array(vec![object(vec![
                        ("type", text("summary_text")),
                        ("text", text("summary")),
                    ])]),
                ),
                (
                    "content",
                    Value::Array(vec![object(vec![
                        ("type", text("reasoning_text")),
                        ("text", text("original text")),
                    ])]),
                ),
                (
                    "encrypted_content",
                    text("b0df28fe-1330-40ab-a940-7f09b22f84b1-0"),
                ),
            ]),
        ),
    ]);
    let fixed = repair_injected_line(&value.to_string()).unwrap();
    let result: Value = serde_json::from_str(&fixed).unwrap();
    assert_eq!(result["payload"]["channel"], "analysis");
    assert_eq!(result["payload"]["content"][0]["text"], "summary");
    assert_eq!(result["payload"]["content"][1]["text"], "original text");
    assert!(repair_injected_line(&fixed).is_none());
    value["payload"]["encrypted_content"] = "gAAAA-native-opaque".into();
    assert!(repair_injected_line(&value.to_string()).is_none());
}

#[test]
fn detects_orphans_whose_text_mentions_call_id() {
    let line = r#"{"type":"response_item","payload":{"type":"function_call_output","namespace":"codex_app","name":"automation_update","output":"note: call_id is missing"}}"#;
    assert!(repair_injected_line(line).is_some());
}

#[test]
fn an_injected_message_keeps_its_id_and_metadata() {
    let line = r#"{"type":"response_item","payload":{"type":"function_call_output","id":"msg_7","namespace":"codex_app","name":"send_message_to_thread","output":"hi","internal_chat_message_metadata_passthrough":{"a":1}}}"#;
    let fixed: Value = serde_json::from_str(&repair_injected_line(line).unwrap()).unwrap();
    assert_eq!(fixed["payload"]["id"], "msg_7");
    assert_eq!(
        fixed["payload"]["internal_chat_message_metadata_passthrough"]["a"],
        1
    );
    assert_eq!(fixed["payload"]["content"][0]["type"], "input_text");
    let other = line.replace("msg_7", "x7");
    let fixed: Value = serde_json::from_str(&repair_injected_line(&other).unwrap()).unwrap();
    assert_eq!(fixed["payload"]["id"], "msg_x7");
}

const META: &str = "{\"type\":\"session_meta\",\"payload\":{\"id\":\"thread-1\"}}\n";
const INJECTED: &str = "{\"type\":\"response_item\",\"payload\":{\"type\":\"function_call_output\",\"namespace\":\"codex_app\",\"name\":\"automation_update\",\"output\":\"go\"}}";
const REPAIRED: &str = "{\"payload\":{\"content\":[{\"text\":\"go\",\"type\":\"input_text\"}],\"role\":\"user\",\"type\":\"message\"},\"type\":\"response_item\"}";

#[test]
fn only_injected_records_change() {
    let content = format!("{META}{INJECTED}\r\nplain\r\n{INJECTED}");
    let repair = repair_injected_content(&content).unwrap();
    assert_eq!(
        repair.content,
        format!("{META}{REPAIRED}\r\nplain\r\n{REPAIRED}")
    );
    assert_eq!(repair.items_repaired, 2);
    let first = META.len() as u64;
    let second = first + INJECTED.len() as u64 + 2 + 7;
    assert_eq!(
        repair.changes,
        vec![
            (
                first,
                first + INJECTED.len() as u64 + 2,
                REPAIRED.len() as u64 + 2
            ),
            (
                second,
                second + INJECTED.len() as u64,
                REPAIRED.len() as u64
            ),
        ]
    );
    assert_eq!(
        translated_offset(content.len() as u64, &repair.changes),
        Ok(repair.content.len() as u64)
    );
    let again = repair_injected_content(&repair.content).unwrap();
    assert_eq!(again.items_repaired, 0);
    assert_eq!(again.content, repair.content);
}

#[test]
fn checkpoints_never_leave_the_range_of_offsets() {
    assert_eq!(
        translated_offset(u64::MAX, &[(0, 1, 3)]),
        Err(RepairError::OffsetOutOfRange)
    );
    assert_eq!(
        translated_offset(15, &[(10, 20, 1)]),
        Err(RepairError::InsideChangedRecord)
    );
}

#[test]
fn a_repair_is_written_only_where_the_thread_is_known() {
    let content = format!("{META}{INJECTED}\n");
    assert_eq!(
        repair_injected_file(&content, true).unwrap().items_repaired,
        1
    );
    let nameless = format!("{INJECTED}\n");
    assert_eq!(
        repair_injected_file(&nameless, true),
        Err(RepairError::MissingIdentity)
    );
    assert_eq!(
        repair_injected_file(&nameless, false).unwrap().items_repaired,
        1
    );
    let segmented = format!(
        "{{\"type\":\"session_meta\",\"payload\":{{\"id\":\"thread-1\",\"history_base\":\"x\"}}}}\n{INJECTED}\n"
    );
    assert_eq!(
        repair_injected_file(&segmented, true),
        Err(RepairError::SegmentedHistory)
    );
    assert_eq!(repair_injected_file("", true).unwrap().items_repaired, 0);
}

#[test]
fn locks_are_named_by_the_thread() {
    let identity = session_identity(META);
    assert_eq!(
        identity,
        SessionIdentity {
            id: Some("thread-1".to_string()),
            segmented: false,
        }
    );
    assert_eq!(
        writer_guard(&identity, true),
        Ok(Some("thread-1.lock".to_string()))
    );
    assert_eq!(writer_guard(&identity, false), Ok(None));
    let nobody = session_identity("not json");
    assert_eq!(nobody.id, None);
    assert_eq!(writer_guard(&nobody, true), Ok(None));
    for id in ["", "../x", "a b", "é"] {
        assert!(!is_valid_thread_id(id), "{id}");
        let odd = SessionIdentity {
            id: Some(id.to_string()),
            segmented: false,
        };
        assert_eq!(writer_guard(&odd, true), Err(RepairError::InvalidIdentity));
    }
    assert!(is_valid_thread_id("0f-A9"));
}

#[test]
fn a_rollout_that_grows_is_left_alone() {
    assert_eq!(unchanged_during_repair(5, 5, 7, 7), Ok(()));
    assert_eq!(
        unchanged_during_repair(5, 6, 7, 7),
        Err(RepairError::RolloutChanged)
    );
    assert_eq!(
        unchanged_during_repair(5, 5, 7, 8),
        Err(RepairError::RolloutChanged)
    );
}

#[test]
fn only_the_canonical_rollout_moves_its_checkpoint() {
    assert_eq!(checkpoint_to_move(None, false), Ok(None));
    assert_eq!(checkpoint_to_move(Some(9), true), Ok(Some(9)));
    assert_eq!(
        checkpoint_to_move(Some(9), false),
        Err(RepairError::NoStateDatabase)
    );
    assert_eq!(
        canonical_rollout(&None, "/h/.codex"),
        Err(RepairError::NoCanonicalRollout)
    );
    assert_eq!(
        canonical_rollout(&Some("sessions/a.jsonl".to_string()), "/h/.codex"),
        Ok("/h/.codex/sessions/a.jsonl".to_string())
    );
    assert_eq!(
        canonical_rollout(&Some("/x/a.jsonl".to_string()), "/h/.codex"),
        Ok("/x/a.jsonl".to_string())
    );
    let changes = [(10, 20, 15)];
    assert_eq!(moved_checkpoint(30, true, &changes), Ok(Some(35)));
    assert_eq!(moved_checkpoint(30, false, &changes), Ok(None));
    assert_eq!(
        moved_checkpoint(15, true, &changes),
        Err(RepairError::InsideChangedRecord)
    );
}

fn found(path: &str, age: Age, outcome: FileOutcome) -> WalkEntry {
    WalkEntry::Found {
        path: path.to_string(),
        name: path.rsplit('/').next().unwrap().to_string(),
        is_file: true,
        age,
        outcome,
    }
}

#[test]
fn repairs_are_counted_and_put_off() {
    assert_eq!(REPAIR_VERSION, 3);
    let entries = vec![
        WalkEntry::Unreadable,
        found("s/rollout-1.jsonl", Age::Newer, FileOutcome::Done(2)),
        found("s/rollout-2.jsonl", Age::Older, FileOutcome::Done(9)),
        found("s/rollout-3.jsonl", Age::Unknown, FileOutcome::Untouched),
        found("s/rollout-4.jsonl", Age::Newer, FileOutcome::Active),
        found("s/rollout-5.jsonl", Age::Any, FileOutcome::Failed),
        found("s/rollout-6.jsonl", Age::Any, FileOutcome::Done(0)),
        found("s/notes.txt", Age::Any, FileOutcome::Done(9)),
    ];
    let none: Vec<String> = Vec::new();
    let summary = repair_injected_items(&entries, true, Some("b".to_string()));
    assert_eq!(summary.rollouts_scanned, 4);
    assert_eq!(summary.rollouts_affected, 1);
    assert_eq!(summary.rollouts_repaired, 1);
    assert_eq!(summary.items_repaired, 2);
    assert_eq!(summary.errors, 3);
    assert_eq!(summary.traversal_errors, 1);
    assert_eq!(summary.skipped_active, 1);
    assert_eq!(
        summary.deferred_rollouts,
        vec![
            "s/rollout-3.jsonl".to_string(),
            "s/rollout-4.jsonl".to_string(),
            "s/rollout-5.jsonl".to_string(),
        ]
    );
    assert_eq!(summary.backup_dir, Some("b".to_string()));
    assert_eq!(select_entry(&entries[1], &none), Selection::Repair);
    assert_eq!(select_entry(&entries[2], &none), Selection::Ignore);
    assert_eq!(select_entry(&entries[3], &none), Selection::Defer);
    assert_eq!(select_entry(&entries[7], &none), Selection::Ignore);

    let deferred = vec!["s/rollout-2.jsonl".to_string()];
    assert_eq!(select_entry(&entries[2], &deferred), Selection::Repair);
    let dry = repair_with_deferred(&entries, &deferred, false, None);
    assert_eq!(dry.rollouts_scanned, 5);
    assert_eq!(dry.rollouts_affected, 2);
    assert_eq!(dry.rollouts_repaired, 0);
    assert_eq!(dry.items_repaired, 11);
    assert_eq!(dry.skipped_active, 0);
    assert_eq!(
        dry.deferred_rollouts,
        vec![
            "s/rollout-3.jsonl".to_string(),
            "s/rollout-5.jsonl".to_string(),
        ]
    );
}

#[test]
fn repair_errors_are_told_in_words() {
    for (error, words) in [
        (
            RepairError::InvalidIdentity,
            "invalid thread identity; refusing rollout write",
        ),
        (
            RepairError::OversizedRecord,
            "oversized rollout record; repair deferred",
        ),
        (
            RepairError::MissingIdentity,
            "missing session identity; refusing rollout write",
        ),
        (
            RepairError::SegmentedHistory,
            "segmented history needs lineage-aware projection rebuild; repair deferred",
        ),
        (
            RepairError::RolloutChanged,
            "rollout changed during repair; refusing overwrite",
        ),
        (
            RepairError::InsideChangedRecord,
            "projection checkpoint lies inside a changed record; repair deferred",
        ),
        (
            RepairError::NoStateDatabase,
            "projection has no state database to identify its rollout; repair deferred",
        ),
        (
            RepairError::NoCanonicalRollout,
            "projection has no canonical rollout; repair deferred",
        ),
    ] {
        assert_eq!(error.message(), words);
    }
}

#[test]
fn moved_checkpoints_keep_their_order() {
    let changes = [(10, 20, 3), (20, 30, 50), (40, 41, 0)];
    let mut last: u64 = 0;
    for offset in [0, 10, 20, 30, 35, 40, 41, 100] {
        let moved = translated_offset(offset, &changes).unwrap();
        assert!(last <= moved);
        last = moved;
        assert_eq!(translated_offset(offset, &[]), Ok(offset));
    }
    assert_eq!(last, 100 - 7 + 40 - 1);
}
