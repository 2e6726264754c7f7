use ucp::auth::DuplicateAuthSnapshot;
use ucp::sessions::SessionSyncSummary;
use ucp::setup::{
    backup_codex_config, has_legacy_configs, migrates, path_status, print_check, run_doctor,
    run_setup, service_step, DoctorFacts, PathFact, ServiceStep, SetupOptions, SetupStep,
};
use ucp::sync::{
    auto_sync, auto_sync_with_options, capture_current_state, manual_sync, provider_changed,
    rollouts_line, save_state, sessions_line, shortened, show_status, state_file_path,
    switch_provider, ProfileFacts, SyncState, SyncStep,
};

fn texts(items: &[&str]) -> Vec<String> {
    items.iter().map(|item| item.to_string()).collect()
}

fn some(text: &str) -> Option<String> {
    Some(text.to_string())
}

fn known(provider: &str, profile: &str) -> SyncState {
    save_state(provider, profile, "2026-05-27T00:00:00+08:00".to_string())
}

fn capture_auth(profile: &str) -> SyncStep {
    SyncStep::CaptureAuth(profile.to_string())
}

fn reconcile(provider: &str, model: &str, rewrite: bool) -> SyncStep {
    SyncStep::Reconcile(provider.to_string(), model.to_string(), rewrite)
}

fn remember(provider: &str, profile: &str) -> SyncStep {
    SyncStep::SaveState(provider.to_string(), profile.to_string())
}

fn facts(named: Option<&str>, registered: Option<(&str, &str)>) -> ProfileFacts {
    ProfileFacts {
        named_model: named.map(str::to_string),
        registered: registered.map(|(name, model)| (name.to_string(), model.to_string())),
    }
}

#[test]
fn the_state_is_remembered() {
    assert_eq!(state_file_path("/h/.codex"), "/h/.codex/.ucp_state.json");
    let state = save_state("openai", "work", "now".to_string());
    assert_eq!(
        state,
        SyncState {
            last_provider: some("openai"),
            last_sync: some("now"),
            last_profile_name: some("work"),
        }
    );
    assert!(!provider_changed(&state, "openai"));
    assert!(provider_changed(&state, "proxy"));
    assert!(provider_changed(&SyncState::default(), "openai"));
}

#[test]
fn a_switch_captures_then_writes() {
    assert_eq!(
        switch_provider("new", "proxy", "m", &known("openai", "old"), true, true, false),
        vec![
            capture_auth("old"),
            SyncStep::CaptureCommon,
            SyncStep::WriteConfig("new".to_string()),
            SyncStep::WriteAuth("new".to_string()),
            reconcile("proxy", "m", false),
            remember("proxy", "new"),
        ]
    );
    assert_eq!(
        switch_provider("new", "proxy", "m", &SyncState::default(), true, false, true),
        vec![
            SyncStep::WriteConfig("new".to_string()),
            SyncStep::WriteAuth("new".to_string()),
            reconcile("proxy", "m", true),
            remember("proxy", "new"),
        ]
    );
    assert_eq!(
        capture_current_state(&known("openai", "old"), false, true),
        vec![SyncStep::CaptureCommon]
    );
}

#[test]
fn a_sync_without_a_provider_does_nothing() {
    assert!(auto_sync(
        &None,
        &known("openai", "work"),
        &facts(Some("m"), None),
        true,
        true
    )
    .is_empty());
}

#[test]
fn a_sync_with_the_same_provider_captures_updates() {
    let state = known("openai", "work");
    assert_eq!(
        auto_sync(
            &some("openai"),
            &state,
            &facts(Some("m1"), Some(("other", "m2"))),
            true,
            true
        ),
        vec![
            capture_auth("work"),
            SyncStep::CaptureCommon,
            reconcile("openai", "m1", false),
            remember("openai", "work"),
        ]
    );
    assert_eq!(
        manual_sync(
            &some("openai"),
            &state,
            &facts(None, Some(("other", "m2"))),
            false,
            true,
            true
        ),
        vec![
            SyncStep::CaptureCommon,
            reconcile("openai", "m2", true),
            remember("openai", "work"),
        ]
    );
    let nameless = SyncState {
        last_provider: some("openai"),
        last_sync: None,
        last_profile_name: None,
    };
    assert_eq!(
        auto_sync_with_options(
            &some("openai"),
            &nameless,
            &facts(None, None),
            true,
            false,
            false
        ),
        vec![
            capture_auth("unknown"),
            SyncStep::WarnUnresolved("openai".to_string()),
            remember("openai", "unknown"),
        ]
    );
}

#[test]
fn a_sync_with_another_provider_follows_its_profile() {
    let state = known("openai", "work");
    assert_eq!(
        auto_sync(
            &some("proxy"),
            &state,
            &facts(Some("m1"), Some(("p", "m2"))),
            true,
            true
        ),
        vec![
            SyncStep::CaptureCommon,
            capture_auth("p"),
            reconcile("proxy", "m2", false),
            remember("proxy", "p"),
        ]
    );
    assert_eq!(
        auto_sync(&some("proxy"), &state, &facts(Some("m1"), None), true, true),
        vec![SyncStep::WarnUnregistered("proxy".to_string())]
    );
}

#[test]
fn sessions_are_reported_when_anything_happened() {
    let mut summary = SessionSyncSummary::default();
    summary.rollouts_skipped = 4;
    assert_eq!(sessions_line(&summary), None);
    assert_eq!(
        rollouts_line(&summary),
        "  Rollouts: 0 modified, 4 skipped, 0 metadata lines, 0 errors; DB: 0 rows, 0 errors"
    );
    summary.rollouts_modified = 1;
    summary.metadata_lines_updated = 2;
    summary.db_records_updated = 3;
    summary.rollout_errors = 5;
    summary.db_errors = 6;
    assert_eq!(
        sessions_line(&summary).as_deref(),
        Some("  Sessions: 1 rollout(s), 2 metadata line(s), 3 DB row(s), 11 error(s)")
    );
}

#[test]
fn test_status_runs() {
    let lines = show_status(&None, &SyncState::default());
    assert_eq!(
        lines,
        texts(&[
            "┌─────────────────────────────────────────┐",
            "│ UnifiedCodexProvider Status              │",
            "├─────────────────────────────────────────┤",
            "│ Active provider: (none)                 │",
            "│ Profile name:    (unknown)              │",
            "│ Last sync:       (never)                │",
            "│ State:           ⚠ inconsistent         │",
            "└─────────────────────────────────────────┘",
            "",
            "Run 'ucp sync' to fix inconsistency.",
        ])
    );
}

#[test]
fn the_status_of_a_consistent_state() {
    assert_eq!(
        show_status(&some("openai"), &known("openai", "work")),
        texts(&[
            "┌─────────────────────────────────────────┐",
            "│ UnifiedCodexProvider Status              │",
            "├─────────────────────────────────────────┤",
            "│ Active provider: openai                 │",
            "│ Profile name:    work                   │",
            "│ Last sync:       2026-05-27T00:00:00    │",
            "│ State:           ✓ consistent           │",
            "└─────────────────────────────────────────┘",
        ])
    );
    assert_eq!(shortened("abc", 3), "abc");
    assert_eq!(shortened("äbc", 2), "ä");
}

fn doctor_facts() -> DoctorFacts {
    DoctorFacts {
        binary: None,
        codex_cli: some("/bin/codex"),
        codex_home: PathFact {
            path: "/h/.codex".to_string(),
            present: true,
        },
        config_toml: PathFact {
            path: "/h/.codex/config.toml".to_string(),
            present: false,
        },
        auth_json: PathFact {
            path: "/h/.codex/auth.json".to_string(),
            present: false,
        },
        profiles: 12,
        active_provider: None,
        state_profile: some("work"),
        on_macos: true,
        service_installed: false,
    }
}

#[test]
fn test_doctor_runs_with_empty_home() {
    assert_eq!(
        run_doctor(&doctor_facts(), &Vec::new()),
        texts(&[
            "UCP doctor",
            "----------",
            "ucp binary               (unknown)",
            "Codex CLI                /bin/codex",
            "Codex home               /h/.codex",
            "config.toml              missing (/h/.codex/config.toml)",
            "auth.json                missing (/h/.codex/auth.json)",
            "profiles                 12",
            "active provider          (none)",
            "state profile            work",
            "LaunchAgent              not installed",
            "duplicate ChatGPT auth   none",
        ])
    );
}

#[test]
fn the_doctor_tells_of_shared_logins() {
    let mut facts = doctor_facts();
    facts.on_macos = false;
    facts.codex_cli = None;
    let duplicates = vec![
        DuplicateAuthSnapshot {
            profiles: texts(&["a", "b"]),
        },
        DuplicateAuthSnapshot {
            profiles: texts(&["c", "d", "e"]),
        },
    ];
    let lines = run_doctor(&facts, &duplicates);
    assert_eq!(lines.len(), 13);
    assert_eq!(lines[3], "Codex CLI                not found in PATH");
    assert_eq!(
        lines[10],
        "LaunchAgent              not supported on this platform"
    );
    assert_eq!(lines[11], "duplicate ChatGPT auth   profiles: a, b");
    assert_eq!(lines[12], "duplicate ChatGPT auth   profiles: c, d, e");
    assert_eq!(path_status("/x", true), "/x");
    assert_eq!(print_check("name", "value"), "name                     value");
}

#[test]
fn test_setup_no_service_creates_codex_home() {
    let wanted = SetupOptions {
        install_service: true,
    };
    let unwanted = SetupOptions {
        install_service: false,
    };
    assert_eq!(service_step(&unwanted, true), ServiceStep::NotWanted);
    assert_eq!(service_step(&unwanted, false), ServiceStep::NotWanted);
    assert_eq!(service_step(&wanted, true), ServiceStep::Install);
    assert_eq!(service_step(&wanted, false), ServiceStep::NotSupported);

    let steps = run_setup(&unwanted, &Vec::new(), 0, false);
    assert_eq!(
        steps,
        vec![
            SetupStep::SkipMigration,
            SetupStep::Service(ServiceStep::NotWanted),
            SetupStep::Diagnose,
        ]
    );
    assert_eq!(steps[0].notice().as_deref(), Some("Migration: skipped"));
    assert_eq!(
        steps[1].notice().as_deref(),
        Some("Service: skipped (--no-service)")
    );
    assert_eq!(steps[2].notice(), None);
    let steps = run_setup(&wanted, &texts(&["config_a.toml"]), 0, false);
    assert_eq!(steps[0], SetupStep::Migrate);
    assert_eq!(
        steps[1].notice().as_deref(),
        Some("Service: skipped (macOS LaunchAgent only)")
    );
}

#[test]
fn a_setup_migrates_once() {
    let legacy = texts(&["auth.json", "config_work.toml"]);
    assert!(has_legacy_configs(&legacy));
    assert!(migrates(&legacy, 0));
    assert!(!migrates(&legacy, 1));
    assert!(!migrates(&texts(&["config.toml", "config_x.json"]), 0));
    assert_eq!(
        backup_codex_config(&texts(&[
            "sessions",
            "auth.json",
            "archived_sessions",
            ".ucp_setup_backup_1",
            "sessions_2",
        ])),
        texts(&["auth.json", "sessions_2"])
    );
}
