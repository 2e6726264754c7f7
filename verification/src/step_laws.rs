//! What holds of a switch, of a sync, of the setup and of the background service, said of the
//! steps that are taken and the lines that are written.
use vstd::prelude::*;

use crate::commands::{import_of, is_new_profile, listed, Import, NewProfile};
use crate::migration_laws::old_files_name_their_profile;
use crate::provider::{pair_map, ProviderProfile};
use crate::reports::{database_backup_line, database_line, repair_ending};
use crate::service::{launch_refusal, plist_of, plist_place, xml_escaped};
use crate::sessions::{SessionRepairSummary, SessionSyncSummary};
use crate::setup::{
    check_line, doctor_lines, duplicate_lines, is_backed_up, is_legacy_config, path_report,
    DoctorFacts,
};
use crate::sync::{
    is_status_box, is_worth_a_line, switch_steps, sync_steps, ProfileFacts, Step, SyncState,
};
use crate::text::{contains_text, decimal, stands_at};
use crate::auth::duplicate_warnings;
use crate::auth_refresh::{refresh_failure, summary_words, AuthRefreshSummary};
use crate::reports::repair_counts;
use crate::service::{is_launch_place, LaunchPlace};
use crate::text::signed_decimal;
use crate::service::answer;

verus! {

// ---------------------------------------------------------------------------
// Switching and syncing
// ---------------------------------------------------------------------------

/// A switch writes the configuration and the login of the profile, points the sessions at its
/// provider and its model, and remembers both, in this order. Before that, the login in use is
/// kept as that of the profile last in use, and then the common configuration is taken.
pub proof fn a_switch_takes_these_steps(
    profile: Seq<char>,
    provider: Seq<char>,
    model: Seq<char>,
    last: Seq<char>,
    rewrite: bool,
)
    ensures
        ({
            let ending = seq![
                Step::WriteConfig(profile),
                Step::WriteAuth(profile),
                Step::Reconcile(provider, model, rewrite),
                Step::SaveState(provider, profile),
            ];
            let steps = |known: Option<Seq<char>>, has_auth: bool, has_config: bool|
                switch_steps(profile, provider, model, known, has_auth, has_config, rewrite);
            &&& steps(Some(last), true, true) == seq![Step::CaptureAuth(last), Step::CaptureCommon]
                + ending
            &&& steps(Some(last), true, false) == seq![Step::CaptureAuth(last)] + ending
            &&& steps(Some(last), false, true) == seq![Step::CaptureCommon] + ending
            &&& steps(Some(last), false, false) == ending
            &&& steps(None, true, true) == seq![Step::CaptureCommon] + ending
            &&& steps(None, true, false) == ending
            &&& steps(None, false, true) == seq![Step::CaptureCommon] + ending
            &&& steps(None, false, false) == ending
        }),
{
    let ending = seq![
        Step::WriteConfig(profile),
        Step::WriteAuth(profile),
        Step::Reconcile(provider, model, rewrite),
        Step::SaveState(provider, profile),
    ];
    let steps = |known: Option<Seq<char>>, has_auth: bool, has_config: bool|
        switch_steps(profile, provider, model, known, has_auth, has_config, rewrite);
    assert(steps(Some(last), true, true) =~= seq![Step::CaptureAuth(last), Step::CaptureCommon]
        + ending);
    assert(steps(Some(last), true, false) =~= seq![Step::CaptureAuth(last)] + ending);
    assert(steps(Some(last), false, true) =~= seq![Step::CaptureCommon] + ending);
    assert(steps(Some(last), false, false) =~= ending);
    assert(steps(None, true, true) =~= seq![Step::CaptureCommon] + ending);
    assert(steps(None, true, false) =~= ending);
    assert(steps(None, false, true) =~= seq![Step::CaptureCommon] + ending);
    assert(steps(None, false, false) =~= ending);
}

/// Without a provider in use, a sync does nothing.
pub proof fn nothing_in_use_is_not_synced(
    state: SyncState,
    facts: ProfileFacts,
    has_auth: bool,
    has_config: bool,
    rewrite: bool,
)
    ensures
        sync_steps(None, state, facts, has_auth, has_config, rewrite).len() == 0,
{
}

/// Where another provider is in use than the one that was remembered, or none was, a sync keeps
/// the common configuration and the login as those of the profile that is registered for it,
/// points the sessions at it and remembers it; where none is registered it only says so.
pub proof fn a_new_provider_is_taken_over(
    provider: Seq<char>,
    state: SyncState,
    facts: ProfileFacts,
    has_auth: bool,
    has_config: bool,
    rewrite: bool,
)
    requires
        state.last_provider is None || state.last_provider->0@ != provider,
    ensures
        ({
            let steps = sync_steps(Some(provider), state, facts, has_auth, has_config, rewrite);
            let name = (facts.registered->0).0@;
            let model = (facts.registered->0).1@;
            let ending = seq![
                Step::Reconcile(provider, model, rewrite),
                Step::SaveState(provider, name),
            ];
            &&& facts.registered is None ==> steps == seq![Step::WarnUnregistered(provider)]
            &&& facts.registered is Some && has_auth && has_config ==> steps == seq![
                Step::CaptureCommon,
                Step::CaptureAuth(name),
            ] + ending
            &&& facts.registered is Some && has_auth && !has_config ==> steps == seq![
                Step::CaptureAuth(name),
            ] + ending
            &&& facts.registered is Some && !has_auth && has_config ==> steps == seq![
                Step::CaptureCommon,
            ] + ending
            &&& facts.registered is Some && !has_auth && !has_config ==> steps == ending
        }),
{
    let steps = sync_steps(Some(provider), state, facts, has_auth, has_config, rewrite);
    let name = (facts.registered->0).0@;
    let model = (facts.registered->0).1@;
    let ending = seq![Step::Reconcile(provider, model, rewrite), Step::SaveState(provider, name)];
    assert(seq![Step::CaptureCommon, Step::CaptureAuth(name)] + ending =~= seq![
        Step::CaptureCommon,
    ] + seq![Step::CaptureAuth(name)] + ending);
    assert(Seq::<Step>::empty() + seq![Step::CaptureAuth(name)] + ending =~= seq![
        Step::CaptureAuth(name),
    ] + ending);
    assert(seq![Step::CaptureCommon] + Seq::<Step>::empty() + ending =~= seq![Step::CaptureCommon]
        + ending);
    assert(Seq::<Step>::empty() + Seq::<Step>::empty() + ending =~= ending);
}

/// Where the remembered provider is still in use, a sync keeps the login as that of the profile
/// last in use, takes the common configuration, and points the sessions at the model of that
/// profile, at the model of the registered profile only where that one is not known, and where
/// neither is known says so. It remembers the profile that was remembered.
pub proof fn a_known_provider_is_kept(
    provider: Seq<char>,
    state: SyncState,
    facts: ProfileFacts,
    has_auth: bool,
    has_config: bool,
    rewrite: bool,
    profile: Seq<char>,
)
    requires
        state.last_provider is Some,
        state.last_provider->0@ == provider,
        match state.last_profile_name {
            Some(name) => profile == name@,
            None => profile == "unknown"@,
        },
    ensures
        ({
            let steps = sync_steps(Some(provider), state, facts, has_auth, has_config, rewrite);
            let n = steps.len() as int;
            &&& n == 2 + (if has_auth {
                1int
            } else {
                0
            }) + (if has_config {
                1int
            } else {
                0
            })
            &&& has_auth ==> steps[0] == Step::CaptureAuth(profile)
            &&& has_config ==> steps[n - 3] == Step::CaptureCommon
            &&& facts.named_model is Some ==> steps[n - 2] == Step::Reconcile(
                provider,
                facts.named_model->0@,
                rewrite,
            )
            &&& facts.named_model is None && facts.registered is Some ==> steps[n - 2]
                == Step::Reconcile(provider, (facts.registered->0).1@, rewrite)
            &&& facts.named_model is None && facts.registered is None ==> steps[n - 2]
                == Step::WarnUnresolved(provider)
            &&& steps[n - 1] == Step::SaveState(provider, profile)
        }),
{
}

/// A sync is worth a line where a rollout or a record changed or failed.
pub proof fn changes_and_errors_are_worth_a_line(s: SessionSyncSummary)
    ensures
        s.rollouts_modified > 0 ==> is_worth_a_line(s),
        s.rollout_errors > 0 ==> is_worth_a_line(s),
        s.db_records_updated > 0 ==> is_worth_a_line(s),
        s.db_errors > 0 ==> is_worth_a_line(s),
        s.rollouts_modified == 0 && s.rollout_errors == 0 && s.db_records_updated == 0
            && s.db_errors == 0 ==> !is_worth_a_line(s),
{
}

/// The status is consistent exactly where the provider in use is the one that was remembered;
/// only an inconsistent status is followed by the advice to sync.
pub proof fn a_status_compares_the_providers(
    lines: Seq<Seq<char>>,
    provider: Option<Seq<char>>,
    state: SyncState,
)
    requires
        is_status_box(lines, provider, state),
    ensures
        ({
            let same = provider is Some && state.last_provider is Some && provider->0
                == state.last_provider->0@;
            &&& same ==> lines.len() == 8 && contains_text(lines[6], "✓ consistent"@)
            &&& !same ==> lines.len() == 10 && contains_text(lines[6], "⚠ inconsistent"@)
                && lines[9] == "Run 'ucp sync' to fix inconsistency."@
        }),
        provider is Some ==> contains_text(lines[3], "Active provider: "@ + provider->0),
        state.last_profile_name is Some ==> contains_text(
            lines[4],
            "Profile name:    "@ + state.last_profile_name->0@,
        ),
{
    lemma_box("State:           "@, "✓ consistent"@);
    lemma_box("State:           "@, "⚠ inconsistent"@);
    if provider is Some {
        lemma_box("Active provider: "@, provider->0);
    }
    if state.last_profile_name is Some {
        lemma_box("Profile name:    "@, state.last_profile_name->0@);
    }
}

proof fn lemma_box(name: Seq<char>, value: Seq<char>)
    ensures
        contains_text(crate::sync::box_line(name, value), value),
        contains_text(crate::sync::box_line(name, value), name + value),
{
    let line = crate::sync::box_line(name, value);
    let edge = "│ "@;
    let n = edge.len() as int;
    let k = name.len() as int;
    let filled = crate::text::padded(value, 22);
    assert(filled.len() >= value.len());
    assert(filled.take(value.len() as int) =~= value);
    assert forall|i: int| 0 <= i < value.len() implies filled[i] == #[trigger] value[i] by {
        assert(filled.take(value.len() as int)[i] == value[i]);
    }
    assert(line.subrange(n + k, n + k + value.len()) =~= value);
    assert(stands_at(line, value, n + k));
    assert(line.subrange(n, n + k + value.len()) =~= name + value);
    assert(stands_at(line, name + value, n));
}

// ---------------------------------------------------------------------------
// Commands
// ---------------------------------------------------------------------------

/// A listed profile is marked where it was the last one in use, and only there.
pub proof fn the_profile_in_use_is_marked(name: Seq<char>, state: SyncState)
    ensures
        state.last_profile_name is Some && state.last_profile_name->0@ == name ==> listed(
            name,
            state,
        ) == "  - "@ + name + " (active)"@,
        state.last_profile_name is None || state.last_profile_name->0@ != name ==> listed(
            name,
            state,
        ) == "  - "@ + name,
{
    reveal_strlit("");
    assert("  - "@ + name + ""@ =~= "  - "@ + name);
}

/// A login file of the old naming is imported for the profile in its name, known or not.
pub proof fn old_logins_are_imported(profile: Seq<char>, profiles: Seq<Seq<char>>)
    ensures
        import_of("auth_"@ + profile + ".json"@, profiles) == Some(
            Import {
                file: "auth_"@ + profile + ".json"@,
                profile,
                known: exists|i: int| 0 <= i < profiles.len() && profiles[i] == profile,
            },
        ),
{
    old_files_name_their_profile(profile, profile);
}

/// A new profile holds what was asked for, and the standard interface where none was.
pub proof fn a_new_profile_holds_what_was_asked_for(profile: ProviderProfile, asked: NewProfile)
    requires
        is_new_profile(profile, asked),
    ensures
        profile.provider.model_provider@ == asked.model_provider@,
        profile.provider.name@ == asked.name@,
        profile.provider.model@ == asked.model@,
        profile.provider.wire_api is Some,
        asked.wire_api is Some ==> profile.provider.wire_api->0@ == asked.wire_api->0@,
        asked.wire_api is None ==> profile.provider.wire_api->0@ == "responses"@,
        asked.base_url is Some ==> profile.provider.base_url is Some
            && profile.provider.base_url->0@ == asked.base_url->0@,
        asked.base_url is None ==> profile.provider.base_url is None,
        profile.provider.model_context_window == asked.context_window,
        profile.provider.model_auto_compact_token_limit == asked.auto_compact_limit,
        profile.provider.requires_openai_auth is None,
        asked.api_key is Some ==> pair_map(profile.auth@).contains_key("OPENAI_API_KEY"@)
            && pair_map(profile.auth@)["OPENAI_API_KEY"@] == asked.api_key->0@,
        asked.api_key is None ==> pair_map(profile.auth@).dom() == Set::<Seq<char>>::empty(),
        forall|name: Seq<char>| #[trigger]
            pair_map(profile.auth@).contains_key(name) ==> name == "OPENAI_API_KEY"@,
        profile.config_overrides is None,
{
}

/// The lines on the database are written where there is something to say.
pub proof fn database_lines_are_written_where_due(s: SessionSyncSummary, dir: Seq<char>)
    ensures
        s.db_records_updated == 0 ==> database_line(s).len() == 0,
        s.db_records_updated > 0 ==> database_line(s) == seq![
            "  Database: updated "@ + decimal(s.db_records_updated as nat) + " thread records"@,
        ],
        s.db_backup_files == 0 ==> database_backup_line(s, dir).len() == 0,
        s.db_backup_files > 0 ==> database_backup_line(s, dir) == seq![
            "  Database backups: copied "@ + decimal(s.db_backup_files as nat) + " file(s) to "@
                + dir,
        ],
{
}

/// A dry run says that it was one; a repair names its backup where it made one.
pub proof fn a_dry_run_says_so(s: SessionRepairSummary)
    ensures
        repair_ending(s, false) == seq!["Dry-run only; pass --apply to repair these rollouts."@],
        s.backup_dir is Some ==> repair_ending(s, true) == seq!["  Backup: "@ + s.backup_dir->0@],
        s.backup_dir is None ==> repair_ending(s, true).len() == 0,
{
}

// ---------------------------------------------------------------------------
// Setup
// ---------------------------------------------------------------------------

/// A configuration of the old naming has its profile between `config_` and `.toml`.
pub proof fn old_configurations_are_named_so(profile: Seq<char>, name: Seq<char>)
    ensures
        is_legacy_config("config_"@ + profile + ".toml"@),
        !"config_"@.is_prefix_of(name) ==> !is_legacy_config(name),
        !".toml"@.is_suffix_of(name) ==> !is_legacy_config(name),
{
    let full = "config_"@ + profile + ".toml"@;
    assert(full.subrange(0, "config_"@.len() as int) =~= "config_"@);
    assert(full.subrange(full.len() - ".toml"@.len(), full.len() as int) =~= ".toml"@);
}

/// All of the home directory is backed up but the sessions, the archived sessions and earlier
/// backups.
pub proof fn all_but_sessions_is_backed_up(name: Seq<char>, time: Seq<char>)
    ensures
        !is_backed_up("sessions"@),
        !is_backed_up("archived_sessions"@),
        !is_backed_up(".ucp_setup_backup_"@ + time),
        name != "sessions"@ && name != "archived_sessions"@ && !".ucp_setup_backup_"@.is_prefix_of(
            name,
        ) ==> is_backed_up(name),
{
    let old = ".ucp_setup_backup_"@ + time;
    assert(old.subrange(0, ".ucp_setup_backup_"@.len() as int) =~= ".ucp_setup_backup_"@);
}

/// A path that is there is reported as it is, and one that is not as missing.
pub proof fn missing_paths_are_reported(path: Seq<char>)
    ensures
        path_report(path, true) == path,
        path_report(path, false) == "missing ("@ + path + ")"@,
{
}

/// A line of the diagnosis has its value behind its name, which takes 24 characters at least.
pub proof fn diagnosis_lines_are_aligned(name: Seq<char>, value: Seq<char>)
    requires
        name.len() <= 24,
    ensures
        check_line(name, value).len() == 25 + value.len(),
        check_line(name, value).take(name.len() as int) == name,
        check_line(name, value).skip(25) == value,
{
    let line = check_line(name, value);
    assert(line.take(name.len() as int) =~= name);
    assert(line.skip(25) =~= value);
}

/// The diagnosis reports each fact on its line, and a login that profiles share on one of its
/// own.
pub proof fn the_diagnosis_reports_the_facts(
    facts: DoctorFacts,
    duplicates: Seq<crate::auth::DuplicateAuthSnapshot>,
)
    ensures
        ({
            let lines = doctor_lines(facts, duplicates);
            &&& lines.len() == 11 + if duplicates.len() == 0 {
                1
            } else {
                duplicates.len()
            }
            &&& facts.binary is Some ==> lines[2] == check_line("ucp binary"@, facts.binary->0@)
            &&& facts.binary is None ==> lines[2] == check_line("ucp binary"@, "(unknown)"@)
            &&& facts.codex_cli is Some ==> lines[3] == check_line(
                "Codex CLI"@,
                facts.codex_cli->0@,
            )
            &&& facts.codex_cli is None ==> lines[3] == check_line(
                "Codex CLI"@,
                "not found in PATH"@,
            )
            &&& facts.codex_home.present ==> lines[4] == check_line(
                "Codex home"@,
                facts.codex_home.path@,
            )
            &&& facts.config_toml.present ==> lines[5] == check_line(
                "config.toml"@,
                facts.config_toml.path@,
            )
            &&& facts.auth_json.present ==> lines[6] == check_line(
                "auth.json"@,
                facts.auth_json.path@,
            )
            &&& lines[7] == check_line("profiles"@, decimal(facts.profiles as nat))
            &&& facts.active_provider is Some ==> lines[8] == check_line(
                "active provider"@,
                facts.active_provider->0@,
            )
            &&& facts.active_provider is None ==> lines[8] == check_line(
                "active provider"@,
                "(none)"@,
            )
            &&& facts.state_profile is Some ==> lines[9] == check_line(
                "state profile"@,
                facts.state_profile->0@,
            )
            &&& facts.state_profile is None ==> lines[9] == check_line(
                "state profile"@,
                "(unknown)"@,
            )
            &&& facts.on_macos && facts.service_installed ==> lines[10] == check_line(
                "LaunchAgent"@,
                "installed"@,
            )
            &&& facts.on_macos && !facts.service_installed ==> lines[10] == check_line(
                "LaunchAgent"@,
                "not installed"@,
            )
            &&& !facts.on_macos ==> lines[10] == check_line(
                "LaunchAgent"@,
                "not supported on this platform"@,
            )
            &&& duplicates.len() == 0 ==> lines[11] == check_line("duplicate ChatGPT auth"@, "none"@)
            &&& forall|i: int| #![trigger duplicates[i]]
                0 <= i < duplicates.len() ==> lines[11 + i] == check_line(
                    "duplicate ChatGPT auth"@,
                    "profiles: "@ + crate::text::joined(
                        crate::text::views(duplicates[i].profiles@),
                        ", "@,
                    ),
                )
        }),
{
    let lines = doctor_lines(facts, duplicates);
    let last = duplicate_lines(duplicates);
    assert forall|i: int| 0 <= i < last.len() implies #[trigger] last[i] == lines[11 + i] by {}
    assert forall|i: int| #![trigger duplicates[i]] 0 <= i < duplicates.len() implies lines[11 + i]
        == check_line(
        "duplicate ChatGPT auth"@,
        "profiles: "@ + crate::text::joined(crate::text::views(duplicates[i].profiles@), ", "@),
    ) by {
        assert(last[i] == lines[11 + i]);
    }
    if duplicates.len() == 0 {
        assert(last[0] == lines[11]);
    }
}

// ---------------------------------------------------------------------------
// The background service
// ---------------------------------------------------------------------------

/// A text is escaped character by character: the five characters that markup gives a meaning
/// become references, and every other one stays.
pub proof fn markup_is_escaped(s: Seq<char>, c: char)
    ensures
        xml_escaped(Seq::empty()).len() == 0,
        xml_escaped(s.push('&')) == xml_escaped(s) + "&amp;"@,
        xml_escaped(s.push('<')) == xml_escaped(s) + "&lt;"@,
        xml_escaped(s.push('>')) == xml_escaped(s) + "&gt;"@,
        xml_escaped(s.push('"')) == xml_escaped(s) + "&quot;"@,
        xml_escaped(s.push('\'')) == xml_escaped(s) + "&apos;"@,
        c != '&' && c != '<' && c != '>' && c != '"' && c != '\'' ==> xml_escaped(s.push(c))
            == xml_escaped(s).push(c),
{
    assert(s.push('&').drop_last() =~= s);
    assert(s.push('<').drop_last() =~= s);
    assert(s.push('>').drop_last() =~= s);
    assert(s.push('"').drop_last() =~= s);
    assert(s.push('\'').drop_last() =~= s);
    assert(s.push(c).drop_last() =~= s);
    assert(s.push(c).last() == c);
    if c != '&' && c != '<' && c != '>' && c != '"' && c != '\'' {
        assert(xml_escaped(s) + seq![c] =~= xml_escaped(s).push(c));
    }
}

/// A service is refused off macOS, for an unknown user, for the administrator and without a home
/// directory, and for no one else.
pub proof fn services_are_refused(action: Seq<char>, uid: Seq<char>, home: &str)
    ensures
        launch_refusal(false, action, uid, Some(home)) == Some(
            action + " is only supported on macOS"@,
        ),
        launch_refusal(true, action, Seq::empty(), Some(home)) == Some(
            "Cannot determine current user ID"@,
        ),
        launch_refusal(true, action, "0"@, Some(home)) == Some(
            "LaunchAgents must be managed from the logged-in user session; do not use sudo"@,
        ),
        uid.len() > 0 && uid != "0"@ ==> launch_refusal(true, action, uid, None) == Some(
            "Cannot determine home directory"@,
        ),
        uid.len() > 0 && uid != "0"@ ==> launch_refusal(true, action, uid, Some(home)) is None,
{
    reveal_strlit("0");
    assert("0"@.len() == 1);
}

/// The service is registered in the home directory of the user.
pub proof fn the_service_is_registered_at_home(home: Seq<char>)
    requires
        home.len() > 0,
        home.last() != '/',
    ensures
        plist_place(home) == home
            + "/Library/LaunchAgents/com.codex.unified-provider-sync.plist"@,
{
    reveal_strlit("Library");
    reveal_strlit("LaunchAgents");
    reveal_strlit("com.codex.unified-provider-sync");
    reveal_strlit(".plist");
    reveal_strlit("/Library/LaunchAgents/com.codex.unified-provider-sync.plist");
    let one = home.push('/') + "Library"@;
    let two = one.push('/') + "LaunchAgents"@;
    let name = "com.codex.unified-provider-sync"@ + ".plist"@;
    assert("Library"@[0] == 'L' && "Library"@.len() == 7);
    assert(crate::paths::path_below(home, "Library"@) == one);
    assert(one.last() == "Library"@[6]);
    assert("LaunchAgents"@[0] == 'L' && "LaunchAgents"@.len() == 12);
    assert(crate::paths::path_below(one, "LaunchAgents"@) == two);
    assert(two.last() == "LaunchAgents"@[11]);
    assert(name[0] == 'c');
    assert(plist_place(home) == two.push('/') + name);
    let tail = "/Library/LaunchAgents/com.codex.unified-provider-sync.plist"@;
    assert(tail =~= seq!['/'] + "Library"@ + seq!['/'] + "LaunchAgents"@ + seq!['/'] + name);
    assert(plist_place(home) =~= home + tail);
}

/// The service runs the program that is registered, and watches the login and the configuration
/// in the home directory.
pub proof fn the_service_runs_the_program(binary: Seq<char>, home: Seq<char>)
    ensures
        contains_text(plist_of(binary, home), xml_escaped(binary)),
        contains_text(plist_of(binary, home), xml_escaped(home)),
        forall|other: Seq<char>|
            xml_escaped(other).len() != xml_escaped(binary).len() ==> #[trigger] plist_of(other, home)
                != plist_of(binary, home),
{
    let made = plist_of(binary, home);
    let a = xml_escaped(binary);
    let b = xml_escaped(home);
    let before = "<?xml version=\"1.0\" encoding=\"UTF-8\"?>\n<!DOCTYPE plist PUBLIC \"-//Apple//DTD PLIST 1.0//EN\" \"http://www.apple.com/DTDs/PropertyList-1.0.dtd\">\n<plist version=\"1.0\">\n<dict>\n    <key>Label</key>\n    <string>"@
        + crate::service::label()
        + "</string>\n\n    <key>ProgramArguments</key>\n    <array>\n        <string>"@;
    let between = "</string>\n        <string>sync</string>\n        <string>--auto</string>\n        <string>--refresh-auth</string>\n    </array>\n\n    <key>WatchPaths</key>\n    <array>\n        <string>"@;
    let n = before.len() as int;
    assert(made.subrange(n, n + a.len()) =~= a);
    assert(stands_at(made, a, n));
    let k = n + a.len() + between.len();
    assert(made.subrange(k, k + b.len()) =~= b);
    assert(stands_at(made, b, k));
}

/// The service belongs to the session of the user, under its label.
pub proof fn the_service_belongs_to_the_user(place: LaunchPlace, uid: Seq<char>, home: Seq<char>)
    requires
        is_launch_place(place, uid, home),
    ensures
        place.domain@ == "gui/"@ + uid,
        place.target@ == place.domain@ + "/com.codex.unified-provider-sync"@,
        place.plist_path@ == plist_place(home),
{
    reveal_strlit("/com.codex.unified-provider-sync");
    reveal_strlit("com.codex.unified-provider-sync");
    assert("/com.codex.unified-provider-sync"@ =~= seq!['/']
        + "com.codex.unified-provider-sync"@);
    assert(place.target@ =~= place.domain@ + "/com.codex.unified-provider-sync"@);
}

// ---------------------------------------------------------------------------
// Reports
// ---------------------------------------------------------------------------

proof fn lemma_holds(before: Seq<char>, part: Seq<char>, after: Seq<char>)
    ensures
        contains_text(before + part + after, part),
{
    let whole = before + part + after;
    let n = before.len() as int;
    assert(whole.subrange(n, n + part.len()) =~= part);
    assert(stands_at(whole, part, n));
}

/// The report of a repair names each of its counts.
pub proof fn a_repair_report_names_its_counts(s: SessionRepairSummary)
    ensures
        repair_counts(s).len() == 3,
        contains_text(
            repair_counts(s)[0],
            decimal(s.rollouts_scanned as nat) + " rollout(s) scanned, "@,
        ),
        contains_text(repair_counts(s)[0], decimal(s.rollouts_affected as nat) + " affected, "@),
        contains_text(repair_counts(s)[0], decimal(s.rollouts_repaired as nat) + " repaired, "@),
        contains_text(repair_counts(s)[0], decimal(s.errors as nat) + " error(s)"@),
        contains_text(
            repair_counts(s)[1],
            decimal(s.projection_rows_removed as nat) + " UCP display projection(s) removed"@,
        ),
        contains_text(
            repair_counts(s)[2],
            decimal(s.invalid_names_normalized as nat) + " invalid tool name(s) normalized"@,
        ),
{
    let none = Seq::<char>::empty();
    let line = repair_counts(s)[0];
    let a = "Session repair: "@;
    let b = decimal(s.rollouts_scanned as nat) + " rollout(s) scanned, "@;
    let c = decimal(s.rollouts_affected as nat) + " affected, "@;
    let d = decimal(s.rollouts_repaired as nat) + " repaired, "@;
    let e = decimal(s.errors as nat) + " error(s)"@;
    assert(line =~= a + b + (c + d + e));
    lemma_holds(a, b, c + d + e);
    assert(line =~= (a + b) + c + (d + e));
    lemma_holds(a + b, c, d + e);
    assert(line =~= (a + b + c) + d + e);
    lemma_holds(a + b + c, d, e);
    assert(line =~= (a + b + c + d) + e + none);
    lemma_holds(a + b + c + d, e, none);
    let removed = decimal(s.projection_rows_removed as nat) + " UCP display projection(s) removed"@;
    let renamed = decimal(s.invalid_names_normalized as nat) + " invalid tool name(s) normalized"@;
    assert(repair_counts(s)[1] =~= "  "@ + removed + none);
    lemma_holds("  "@, removed, none);
    assert(repair_counts(s)[2] =~= "  "@ + renamed + none);
    lemma_holds("  "@, renamed, none);
}

/// The report of a refresh names each of its counts, and those that would be refreshed only
/// where there are some.
pub proof fn a_refresh_report_names_its_counts(s: AuthRefreshSummary)
    ensures
        contains_text(summary_words(s), decimal(s.scanned as nat) + " scanned, "@),
        contains_text(summary_words(s), decimal(s.refreshed as nat) + " refreshed, "@),
        contains_text(summary_words(s), decimal(s.fresh as nat) + " fresh, "@),
        contains_text(summary_words(s), decimal(s.skipped_stale as nat) + " stale skipped, "@),
        contains_text(
            summary_words(s),
            decimal(s.skipped_non_chatgpt as nat) + " non-ChatGPT skipped, "@,
        ),
        contains_text(summary_words(s), decimal(s.missing_snapshot as nat) + " missing, "@),
        contains_text(summary_words(s), decimal(s.failed as nat) + " failed"@),
        s.would_refresh > 0 ==> contains_text(
            summary_words(s),
            decimal(s.would_refresh as nat) + " would refresh"@,
        ),
{
    let line = summary_words(s);
    let x0 = "Auth refresh: "@;
    let x1 = x0 + decimal(s.scanned as nat) + " scanned, "@;
    let x2 = x1 + decimal(s.refreshed as nat) + " refreshed, "@;
    let x3 = x2 + decimal(s.fresh as nat) + " fresh, "@;
    let x4 = x3 + decimal(s.skipped_stale as nat) + " stale skipped, "@;
    let x5 = x4 + decimal(s.skipped_non_chatgpt as nat) + " non-ChatGPT skipped, "@;
    let x6 = x5 + decimal(s.missing_snapshot as nat) + " missing, "@;
    let x7 = x6 + decimal(s.failed as nat) + " failed"@;
    if s.would_refresh > 0 {
        assert(line == x7 + ", "@ + decimal(s.would_refresh as nat) + " would refresh"@);
        lemma_whole(line);
        lemma_counted(x7 + ", "@, decimal(s.would_refresh as nat), " would refresh"@, line);
        assert(x7 + ", "@ + Seq::<char>::empty() =~= x7 + ", "@);
        lemma_counted(x7, ", "@, Seq::empty(), line);
    } else {
        lemma_whole(line);
    }
    lemma_counted(x6, decimal(s.failed as nat), " failed"@, line);
    lemma_counted(x5, decimal(s.missing_snapshot as nat), " missing, "@, line);
    lemma_counted(x4, decimal(s.skipped_non_chatgpt as nat), " non-ChatGPT skipped, "@, line);
    lemma_counted(x3, decimal(s.skipped_stale as nat), " stale skipped, "@, line);
    lemma_counted(x2, decimal(s.fresh as nat), " fresh, "@, line);
    lemma_counted(x1, decimal(s.refreshed as nat), " refreshed, "@, line);
    lemma_counted(x0, decimal(s.scanned as nat), " scanned, "@, line);
}

proof fn lemma_whole(line: Seq<char>)
    ensures
        line.is_prefix_of(line),
{
    assert(line.subrange(0, line.len() as int) =~= line);
}

/// A count with its word stands behind the beginning of a line.
proof fn lemma_counted(start: Seq<char>, count: Seq<char>, word: Seq<char>, line: Seq<char>)
    requires
        (start + count + word).is_prefix_of(line),
    ensures
        start.is_prefix_of(line),
        contains_text(line, count + word),
{
    let whole = start + count + word;
    let n = start.len() as int;
    let m = whole.len() as int;
    assert(line.subrange(0, m) =~= whole);
    assert(line.subrange(0, n) =~= line.subrange(0, m).subrange(0, n));
    assert(whole.subrange(0, n) =~= start);
    assert(line.subrange(n, m) =~= line.subrange(0, m).subrange(n, m));
    assert(whole.subrange(n, m) =~= count + word);
    assert(stands_at(line, count + word, n));
}

/// A refresh without fresher tokens is told with how the command ended, and with what it
/// printed where it printed something.
pub proof fn a_failed_refresh_is_told(code: int, printed: Seq<char>)
    requires
        printed.len() > 0,
    ensures
        refresh_failure(Some(code), Seq::empty()) == "Codex did not produce fresher tokens ("@ + (
        "exit "@ + signed_decimal(code)) + ")"@,
        refresh_failure(None, Seq::empty()) == "Codex did not produce fresher tokens ("@
            + "terminated by signal"@ + ")"@,
        refresh_failure(Some(code), printed) == refresh_failure(Some(code), Seq::empty()) + ": "@
            + printed,
        refresh_failure(None, printed) == refresh_failure(None, Seq::empty()) + ": "@ + printed,
{
}

/// Each login that profiles share is warned of, and nothing is said where none is shared.
pub proof fn shared_logins_are_warned_of(
    duplicates: Seq<crate::auth::DuplicateAuthSnapshot>,
    i: int,
)
    ensures
        duplicate_warnings(Seq::empty()).len() == 0,
        0 <= i < duplicates.len() ==> duplicate_warnings(duplicates).len() == duplicates.len() + 4
            && duplicate_warnings(duplicates)[2 + i]
            == "  ⚠ ChatGPT auth snapshot reused by: "@ + crate::text::joined(
            crate::text::views(duplicates[i].profiles@),
            ", "@,
        ),
{
}

/// A backup is kept where a rollout changed or a database was copied, and only there.
pub proof fn backups_are_kept_where_something_changed(s: SessionSyncSummary)
    ensures
        s.rollouts_modified > 0 ==> s.backed_up(),
        s.db_backup_files > 0 ==> s.backed_up(),
        s.rollouts_modified == 0 && s.db_backup_files == 0 ==> !s.backed_up(),
{
}

/// Where nothing would be refreshed, the report of a refresh ends with those that failed.
pub proof fn a_refresh_report_ends_with_failures(s: AuthRefreshSummary)
    requires
        s.would_refresh == 0,
    ensures
        " failed"@.is_suffix_of(summary_words(s)),
{
    let line = summary_words(s);
    let word = " failed"@;
    assert(line.subrange(line.len() - word.len(), line.len() as int) =~= word);
}

/// A question is answered with yes or no.
pub proof fn questions_are_answered(yes: bool)
    ensures
        yes ==> answer(yes) == "yes"@,
        !yes ==> answer(yes) == "no"@,
{
}

} // verus!
