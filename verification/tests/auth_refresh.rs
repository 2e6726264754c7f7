use base64::engine::general_purpose::URL_SAFE_NO_PAD;
use base64::Engine;
use serde_json::Value;
use ucp::auth_refresh::{
    auth_was_refreshed, decide, decide_snapshot, force_expired_tokens, jwt_timestamp,
    parse_last_refresh, print_summary, profile_line, redact_line, redact_output, redact_text,
    refresh_auth_snapshots, refresh_failure_text, refresh_targets, runs_refresh, snapshot_outcome,
    snapshot_token, toml_escape, write_minimal_config, AuthRefreshOptions, AuthRefreshSummary,
    RefreshDecision, SnapshotOutcome, UnreadableSnapshot,
};
use ucp::json::parse;
use ucp::moments::{elapsed_nanos, parse_moment, Moment};
use ucp::tokens::{claimed_moment, jwt_claim, jwt_payload, rewrite_jwt_timestamp, TokenError};

const NOW: i64 = 1_781_000_000;

fn jwt(exp: i64) -> String {
    let header = URL_SAFE_NO_PAD.encode(r#"{"alg":"none"}"#);
    let payload = URL_SAFE_NO_PAD.encode(format!(r#"{{"exp":{exp},"iat":{}}}"#, exp - 3600));
    format!("{header}.{payload}.sig")
}

fn chatgpt_auth(last_refresh: &str, exp: i64) -> String {
    format!(
        "{{\"auth_mode\":\"chatgpt\",\"tokens\":{{\"access_token\":\"{}\",\"id_token\":\"{}\",\"refresh_token\":\"refresh-token\",\"account_id\":\"account\"}},\"last_refresh\":\"{}\"}}",
        jwt(exp),
        jwt(exp),
        last_refresh
    )
}

fn moment(secs: i64) -> Moment {
    Moment { secs, nanos: 0 }
}

fn rfc3339(secs: i64) -> String {
    chrono::DateTime::<chrono::Utc>::from_timestamp(secs, 0)
        .unwrap()
        .to_rfc3339()
}

fn decided(content: &str, force: bool) -> RefreshDecision {
    decide_snapshot("auth.json", Some(content), force, 24, 14, &moment(NOW)).unwrap()
}

#[test]
fn stale_snapshots_are_skipped() {
    let content = chatgpt_auth("2000-01-01T00:00:00Z", 946684800);
    let decision = decided(&content, false);
    assert!(matches!(decision, RefreshDecision::SkipStale(_)));
    assert_eq!(
        decision,
        RefreshDecision::SkipStale("last refresh is older than 14 days".to_string())
    );
}

#[test]
fn recent_snapshots_are_fresh() {
    let content = chatgpt_auth(&rfc3339(NOW), NOW + 10 * 86400);
    let decision = decided(&content, false);
    assert!(matches!(decision, RefreshDecision::Fresh(_)));
}

#[test]
fn snapshots_are_refreshed_when_due() {
    assert_eq!(
        decided(&chatgpt_auth(&rfc3339(NOW - 24 * 3600), NOW + 10 * 86400), false),
        RefreshDecision::Refresh("last refresh is at least 24 hours old".to_string())
    );
    assert!(matches!(
        decided(
            &chatgpt_auth(&rfc3339(NOW - 24 * 3600 + 1), NOW + 10 * 86400),
            false
        ),
        RefreshDecision::Fresh(_)
    ));
    assert_eq!(
        decided(&chatgpt_auth(&rfc3339(NOW), NOW + 72 * 3600), false),
        RefreshDecision::Refresh("access token expires within 72 hours".to_string())
    );
    assert!(matches!(
        decided(&chatgpt_auth(&rfc3339(NOW), NOW + 72 * 3600 + 1), false),
        RefreshDecision::Fresh(_)
    ));
    assert!(matches!(
        decided(&chatgpt_auth(&rfc3339(NOW - 14 * 86400), NOW), false),
        RefreshDecision::Refresh(_)
    ));
    assert!(matches!(
        decided(&chatgpt_auth(&rfc3339(NOW - 14 * 86400 - 1), NOW), false),
        RefreshDecision::SkipStale(_)
    ));
}

#[test]
fn age_comes_from_the_token_where_no_refresh_is_known() {
    assert_eq!(
        decided(&chatgpt_auth("never", NOW - 14 * 86400 - 1), false),
        RefreshDecision::SkipStale("access token expired more than 14 days ago".to_string())
    );
    assert_eq!(
        decided(&chatgpt_auth("never", NOW - 14 * 86400), false),
        RefreshDecision::Refresh("access token expires within 72 hours".to_string())
    );
    let ageless = "{\"auth_mode\":\"chatgpt\",\"tokens\":{\"refresh_token\":\"r\"}}";
    assert_eq!(
        decided(ageless, false),
        RefreshDecision::SkipStale("cannot determine snapshot age".to_string())
    );
    assert_eq!(
        decided(ageless, true),
        RefreshDecision::Refresh("forced".to_string())
    );
}

#[test]
fn only_chatgpt_snapshots_are_refreshed() {
    let now = moment(NOW);
    assert_eq!(
        decide_snapshot("/p/x.auth.json", None, false, 24, 7, &now),
        Ok(RefreshDecision::MissingSnapshot(
            "no auth snapshot at /p/x.auth.json".to_string()
        ))
    );
    assert_eq!(
        decide_snapshot("x", Some("not json"), false, 24, 7, &now),
        Err(UnreadableSnapshot)
    );
    assert_eq!(
        decided("{\"auth_mode\":\"apikey\"}", true),
        RefreshDecision::SkipNonChatGpt("auth_mode is not chatgpt".to_string())
    );
    for tokens in ["{}", "{\"refresh_token\":\"\"}", "[]", "null"] {
        let content = format!("{{\"auth_mode\":\"chatgpt\",\"tokens\":{tokens}}}");
        assert_eq!(
            decided(&content, true),
            RefreshDecision::SkipNonChatGpt("missing ChatGPT refresh token".to_string())
        );
    }
    let snapshot = parse("{\"auth_mode\":\"chatgpt\",\"tokens\":{\"refresh_token\":\"r\"},\"last_refresh\":\"2026-06-09T10:13:20Z\"}").unwrap();
    assert!(matches!(
        decide(&snapshot, false, 24, 7, &now),
        RefreshDecision::Fresh(_)
    ));
}

#[test]
fn defaults_are_a_day_and_a_week() {
    let options = AuthRefreshOptions::default();
    assert_eq!(options.profile_name, None);
    assert!(options.all);
    assert!(!options.force && !options.dry_run && !options.quiet);
    assert_eq!(options.min_interval_hours, 24);
    assert_eq!(options.max_stale_days, 7);
}

#[test]
fn tokens_are_read_and_rewritten() {
    let token = jwt(5000);
    assert_eq!(jwt_claim(&token, "exp"), Some(5000));
    assert_eq!(jwt_claim(&token, "iat"), Some(1400));
    assert_eq!(jwt_claim(&token, "nbf"), None);
    assert_eq!(claimed_moment(&token, "exp"), Some(moment(5000)));
    let rewritten = rewrite_jwt_timestamp(&token, "exp", -7).unwrap();
    assert_ne!(rewritten, token);
    assert_eq!(jwt_claim(&rewritten, "exp"), Some(-7));
    assert_eq!(jwt_claim(&rewritten, "iat"), Some(1400));
    assert_eq!(
        rewritten.split('.').next(),
        token.split('.').next()
    );
    assert!(rewritten.ends_with(".sig"));
}

#[test]
fn odd_tokens_are_refused() {
    assert_eq!(jwt_payload("nothing"), Err(TokenError::NotAToken));
    assert_eq!(jwt_payload("a.!.c"), Err(TokenError::BadEncoding));
    assert_eq!(jwt_payload("a.AAAA.c"), Err(TokenError::BadPayload));
    assert_eq!(
        rewrite_jwt_timestamp("a.b", "exp", 1),
        Err(TokenError::NotAToken)
    );
    let list = format!("a.{}.c", URL_SAFE_NO_PAD.encode("[1]"));
    assert_eq!(
        rewrite_jwt_timestamp(&list, "exp", 1),
        Err(TokenError::NoClaims)
    );
    let null = format!("a.{}.c", URL_SAFE_NO_PAD.encode("null"));
    let set = rewrite_jwt_timestamp(&null, "exp", 1).unwrap();
    assert_eq!(jwt_claim(&set, "exp"), Some(1));
}

#[test]
fn expired_tokens_keep_all_else() {
    let content = chatgpt_auth("2026-06-01T00:00:00Z", NOW);
    let ended = force_expired_tokens(&content, NOW).unwrap();
    assert!(ended.ends_with("}\n"));
    let before: Value = serde_json::from_str(&content).unwrap();
    let after: Value = serde_json::from_str(&ended).unwrap();
    for name in ["access_token", "id_token"] {
        let token = after["tokens"][name].as_str().unwrap();
        assert_eq!(jwt_claim(token, "exp"), Some(NOW - 60));
    }
    assert_eq!(
        after["tokens"]["refresh_token"],
        before["tokens"]["refresh_token"]
    );
    assert_eq!(after["last_refresh"], before["last_refresh"]);
    assert_eq!(
        force_expired_tokens("not json", NOW),
        Err(UnreadableSnapshot)
    );
    assert_eq!(
        force_expired_tokens("{\"tokens\":{\"access_token\":\"odd\"}}", NOW),
        Ok("{\n  \"tokens\": {\n    \"access_token\": \"odd\"\n  }\n}\n".to_string())
    );
}

#[test]
fn a_refresh_shows_in_the_snapshot() {
    let old = parse(&chatgpt_auth("2026-06-01T00:00:00Z", 5000)).unwrap();
    let newer = parse(&chatgpt_auth("2026-06-01T00:00:01Z", 5000)).unwrap();
    let longer = parse(&chatgpt_auth("2026-06-01T00:00:00Z", 5001)).unwrap();
    assert!(auth_was_refreshed(&old, &newer));
    assert!(auth_was_refreshed(&old, &longer));
    assert!(!auth_was_refreshed(&old, &old));
    assert!(!auth_was_refreshed(&newer, &old));
    assert_eq!(
        parse_last_refresh(&newer),
        Some(moment(1_780_272_001))
    );
    assert_eq!(
        jwt_timestamp(&longer, "access_token", "exp"),
        Some(moment(5001))
    );
    assert_eq!(
        snapshot_token(&old, "account_id").map(|token| token.as_str()),
        Some("account")
    );
}

#[test]
fn moments_are_read_from_text() {
    assert_eq!(
        parse_moment("1970-01-01T01:00:00.5+01:00"),
        Some(Moment {
            secs: 0,
            nanos: 500_000_000
        })
    );
    assert_eq!(parse_moment("yesterday"), None);
    let early = parse_moment("2026-06-14T00:00:00Z").unwrap();
    let late = parse_moment("2026-06-15T00:00:00.000000001Z").unwrap();
    assert_eq!(elapsed_nanos(&early, &late), 86_400_000_000_001);
    assert_eq!(elapsed_nanos(&late, &early), -86_400_000_000_001);
    assert!(late.is_later_than(&early));
    assert!(!early.is_later_than(&early));
}

#[test]
fn a_minimal_configuration_names_the_model() {
    assert_eq!(
        write_minimal_config("gpt-5.4"),
        "model_provider = \"openai\"\nmodel = \"gpt-5.4\"\n"
    );
    assert_eq!(
        write_minimal_config(" \t"),
        "model_provider = \"openai\"\nmodel = \"gpt-5.5\"\n"
    );
    assert_eq!(toml_escape("a\"b\\c"), "a\\\"b\\\\c");
}

#[test]
fn long_words_are_redacted() {
    let secret = "x".repeat(30);
    assert_eq!(
        redact_line(&format!("  token {secret}\tends ")),
        "token <redacted> ends"
    );
    assert_eq!(redact_line(&"y".repeat(29)), "y".repeat(29));
    assert_eq!(redact_line(&"é".repeat(15)), "<redacted>");
    assert_eq!(redact_text("1\n2\n3\n4\n5\n6"), "1; 2; 3; 4; 5");
    assert_eq!(redact_output(b"bad \xff byte\nnext"), "bad \u{fffd} byte; next");
    assert_eq!(
        refresh_failure_text(Some(2), "why"),
        "Codex did not produce fresher tokens (exit 2): why"
    );
    assert_eq!(
        refresh_failure_text(None, ""),
        "Codex did not produce fresher tokens (terminated by signal)"
    );
    assert_eq!(
        refresh_failure_text(Some(-2147483648), ""),
        "Codex did not produce fresher tokens (exit -2147483648)"
    );
}

#[test]
fn targets_are_one_profile_or_all() {
    let profiles = vec!["a".to_string(), "b".to_string()];
    let mut options = AuthRefreshOptions::default();
    assert_eq!(refresh_targets(&options, &profiles), profiles);
    options.profile_name = Some("b".to_string());
    assert_eq!(refresh_targets(&options, &profiles), vec!["b".to_string()]);
}

#[test]
fn refreshes_are_counted_by_outcome() {
    let refresh = RefreshDecision::Refresh("forced".to_string());
    assert!(runs_refresh(&refresh, false));
    assert!(!runs_refresh(&refresh, true));
    assert!(!runs_refresh(&RefreshDecision::Fresh(String::new()), false));
    let refresh = Some(refresh);
    let outcomes = vec![
        snapshot_outcome(&None, false, false),
        snapshot_outcome(&refresh, true, false),
        snapshot_outcome(&refresh, false, true),
        snapshot_outcome(&refresh, false, false),
        snapshot_outcome(&Some(RefreshDecision::Fresh(String::new())), false, false),
        snapshot_outcome(
            &Some(RefreshDecision::SkipStale(String::new())),
            false,
            false,
        ),
        snapshot_outcome(
            &Some(RefreshDecision::SkipNonChatGpt(String::new())),
            false,
            false,
        ),
        snapshot_outcome(
            &Some(RefreshDecision::MissingSnapshot(String::new())),
            false,
            false,
        ),
    ];
    let summary = refresh_auth_snapshots(&outcomes);
    assert_eq!(
        summary,
        AuthRefreshSummary {
            scanned: 8,
            refreshed: 1,
            fresh: 1,
            would_refresh: 1,
            skipped_non_chatgpt: 1,
            skipped_stale: 1,
            missing_snapshot: 1,
            failed: 2,
        }
    );
    assert_eq!(
        print_summary(&summary),
        "Auth refresh: 8 scanned, 1 refreshed, 1 fresh, 1 stale skipped, 1 non-ChatGPT skipped, 1 missing, 2 failed, 1 would refresh"
    );
    let quiet = refresh_auth_snapshots(&vec![SnapshotOutcome::Fresh]);
    assert_eq!(
        print_summary(&quiet),
        "Auth refresh: 1 scanned, 0 refreshed, 1 fresh, 0 stale skipped, 0 non-ChatGPT skipped, 0 missing, 0 failed"
    );
    assert_eq!(SnapshotOutcome::WouldRefresh.as_text(), "would refresh");
    assert_eq!(SnapshotOutcome::NonChatGpt.as_text(), "skip");
    assert_eq!(
        profile_line("work", &SnapshotOutcome::Stale.as_text(), "old"),
        "  stale         work: old"
    );
}

#[test]
fn redacting_twice_changes_nothing() {
    let line = "  token=abcdefghijklmnopqrstuvwxyz0123456789\u{3000}short\tword ";
    let once = redact_line(line);
    assert_eq!(once, "<redacted> short word");
    assert_eq!(redact_line(&once), once);
}
