//! First-time setup and diagnosis: what there is to migrate and to back up, and what to
//! report.
use vstd::prelude::*;

use crate::auth::DuplicateAuthSnapshot;
use crate::lists::{lemma_filter_step, lemma_no_items};
use crate::text::{decimal, joined, opt_view, padded, views};
use crate::text::{decimal_text, ends_with, join, pad, same_text, starts_with};

verus! {

/// What a setup is asked for.
#[derive(Debug, Clone, Copy, PartialEq, Eq, Structural)]
pub struct SetupOptions {
    pub install_service: bool,
}

/// Whether a file name is that of an earlier configuration.
pub open spec fn is_legacy_config(name: Seq<char>) -> bool {
    "config_"@.is_prefix_of(name) && ".toml"@.is_suffix_of(name)
}

/// Whether any of the files is an earlier configuration.
pub fn has_legacy_configs(names: &Vec<String>) -> (r: bool)
    ensures
        r == exists|i: int| 0 <= i < names@.len() && is_legacy_config((#[trigger] names@[i])@),
{
    let mut i: usize = 0;
    while i < names.len()
        invariant
            i <= names@.len(),
            forall|j: int| 0 <= j < i ==> !is_legacy_config((#[trigger] names@[j])@),
        decreases names@.len() - i,
    {
        if starts_with(names[i].as_str(), "config_") && ends_with(names[i].as_str(), ".toml") {
            return true;
        }
        i += 1;
    }
    false
}

/// Whether a setup migrates: there are earlier configurations, and no profiles yet.
pub fn migrates(names: &Vec<String>, profiles: usize) -> (r: bool)
    ensures
        r == (profiles == 0 && exists|i: int|
            0 <= i < names@.len() && is_legacy_config((#[trigger] names@[i])@)),
{
    has_legacy_configs(names) && profiles == 0
}

/// What a setup does about the background service.
#[derive(Debug, Clone, Copy, PartialEq, Eq, Structural)]
pub enum ServiceStep {
    Install,
    NotSupported,
    NotWanted,
}

/// What a setup does about the background service.
pub fn service_step(options: &SetupOptions, on_macos: bool) -> (r: ServiceStep)
    ensures
        r == (if !options.install_service {
            ServiceStep::NotWanted
        } else if on_macos {
            ServiceStep::Install
        } else {
            ServiceStep::NotSupported
        }),
{
    if !options.install_service {
        ServiceStep::NotWanted
    } else if on_macos {
        ServiceStep::Install
    } else {
        ServiceStep::NotSupported
    }
}

/// A step of a setup, in the order in which they are taken.
#[derive(Debug, Clone, Copy, PartialEq, Eq, Structural)]
pub enum SetupStep {
    /// Back up the home directory and make profiles of the earlier configurations.
    Migrate,
    /// Leave the profiles as they are.
    SkipMigration,
    /// See to the background service.
    Service(ServiceStep),
    /// Report what was found.
    Diagnose,
}

/// The steps of a setup with the given files and number of profiles.
pub fn run_setup(
    options: &SetupOptions,
    names: &Vec<String>,
    profiles: usize,
    on_macos: bool,
) -> (r: Vec<SetupStep>)
    ensures
        r@ == seq![
            if profiles == 0 && exists|i: int|
                0 <= i < names@.len() && is_legacy_config((#[trigger] names@[i])@) {
                SetupStep::Migrate
            } else {
                SetupStep::SkipMigration
            },
            SetupStep::Service(
                if !options.install_service {
                    ServiceStep::NotWanted
                } else if on_macos {
                    ServiceStep::Install
                } else {
                    ServiceStep::NotSupported
                },
            ),
            SetupStep::Diagnose,
        ],
{
    let mut steps: Vec<SetupStep> = Vec::new();
    if migrates(names, profiles) {
        steps.push(SetupStep::Migrate);
    } else {
        steps.push(SetupStep::SkipMigration);
    }
    steps.push(SetupStep::Service(service_step(options, on_macos)));
    steps.push(SetupStep::Diagnose);
    steps
}

impl SetupStep {
    /// What is said of a step that is skipped.
    pub open spec fn words(self) -> Option<Seq<char>> {
        match self {
            SetupStep::SkipMigration => Some("Migration: skipped"@),
            SetupStep::Service(ServiceStep::NotSupported) => Some(
                "Service: skipped (macOS LaunchAgent only)"@,
            ),
            SetupStep::Service(ServiceStep::NotWanted) => Some("Service: skipped (--no-service)"@),
            _ => None,
        }
    }

    /// What is said of a step that is skipped.
    pub fn notice(&self) -> (r: Option<String>)
        ensures
            opt_view(r) == self.words(),
    {
        match self {
            SetupStep::SkipMigration => Some("Migration: skipped".to_owned()),
            SetupStep::Service(ServiceStep::NotSupported) => Some(
                "Service: skipped (macOS LaunchAgent only)".to_owned(),
            ),
            SetupStep::Service(ServiceStep::NotWanted) => Some(
                "Service: skipped (--no-service)".to_owned(),
            ),
            _ => None,
        }
    }
}

/// Whether an entry of the home directory goes into the backup of a setup: all but the
/// sessions and earlier backups.
pub open spec fn is_backed_up(name: Seq<char>) -> bool {
    name != "sessions"@ && name != "archived_sessions"@ && !".ucp_setup_backup_"@.is_prefix_of(name)
}

/// The entries of the home directory that go into the backup of a setup.
pub fn backup_codex_config(names: &Vec<String>) -> (r: Vec<String>)
    ensures
        r@ == names@.filter(|name: String| is_backed_up(name@)),
{
    let ghost pred = |name: String| is_backed_up(name@);
    let mut out: Vec<String> = Vec::new();
    let mut i: usize = 0;
    proof {
        lemma_no_items(names@);
    }
    while i < names.len()
        invariant
            i <= names@.len(),
            pred == (|name: String| is_backed_up(name@)),
            out@ == names@.take(i as int).filter(pred),
        decreases names@.len() - i,
    {
        proof {
            lemma_filter_step(names@, i as int, pred);
        }
        let name = names[i].as_str();
        if !same_text(name, "sessions") && !same_text(name, "archived_sessions") && !starts_with(
            name,
            ".ucp_setup_backup_",
        ) {
            out.push(names[i].clone());
        }
        i += 1;
    }
    proof {
        lemma_no_items(names@);
    }
    out
}

// ---------------------------------------------------------------------------
// Diagnosis
// ---------------------------------------------------------------------------

/// How a path is reported.
pub open spec fn path_report(path: Seq<char>, present: bool) -> Seq<char> {
    if present {
        path
    } else {
        "missing ("@ + path + ")"@
    }
}

/// How a path is reported.
pub fn path_status(path: &str, present: bool) -> (r: String)
    ensures
        r@ == path_report(path@, present),
{
    if present {
        path.to_owned()
    } else {
        let mut out = "missing (".to_owned();
        out.push_str(path);
        out.push_str(")");
        out
    }
}

/// A line of a report.
pub open spec fn check_line(name: Seq<char>, value: Seq<char>) -> Seq<char> {
    padded(name, 24).push(' ') + value
}

/// A line of a report.
pub fn print_check(name: &str, value: &str) -> (r: String)
    ensures
        r@ == check_line(name@, value@),
{
    let mut out = pad(name, 24);
    out.push(' ');
    out.push_str(value);
    out
}

/// A path, and whether something is there.
pub struct PathFact {
    pub path: String,
    pub present: bool,
}

/// What a diagnosis found out.
pub struct DoctorFacts {
    pub binary: Option<String>,
    pub codex_cli: Option<String>,
    pub codex_home: PathFact,
    pub config_toml: PathFact,
    pub auth_json: PathFact,
    pub profiles: usize,
    pub active_provider: Option<String>,
    pub state_profile: Option<String>,
    pub on_macos: bool,
    pub service_installed: bool,
}

/// The text, or another one where there is none.
pub open spec fn shown_or(text: Option<String>, other: Seq<char>) -> Seq<char> {
    match text {
        Some(text) => text@,
        None => other,
    }
}

fn show_or(name: &str, text: &Option<String>, other: &str) -> (r: String)
    ensures
        r@ == check_line(name@, shown_or(*text, other@)),
{
    match text {
        Some(text) => print_check(name, text.as_str()),
        None => print_check(name, other),
    }
}

/// The lines on shared logins.
pub open spec fn duplicate_lines(duplicates: Seq<DuplicateAuthSnapshot>) -> Seq<Seq<char>> {
    if duplicates.len() == 0 {
        seq![check_line("duplicate ChatGPT auth"@, "none"@)]
    } else {
        duplicates.map_values(
            |d: DuplicateAuthSnapshot|
                check_line(
                    "duplicate ChatGPT auth"@,
                    "profiles: "@ + joined(views(d.profiles@), ", "@),
                ),
        )
    }
}

/// The lines of a diagnosis.
pub open spec fn doctor_lines(
    facts: DoctorFacts,
    duplicates: Seq<DuplicateAuthSnapshot>,
) -> Seq<Seq<char>> {
    seq![
        "UCP doctor"@,
        "----------"@,
        check_line("ucp binary"@, shown_or(facts.binary, "(unknown)"@)),
        check_line("Codex CLI"@, shown_or(facts.codex_cli, "not found in PATH"@)),
        check_line("Codex home"@, path_report(facts.codex_home.path@, facts.codex_home.present)),
        check_line("config.toml"@, path_report(facts.config_toml.path@, facts.config_toml.present)),
        check_line("auth.json"@, path_report(facts.auth_json.path@, facts.auth_json.present)),
        check_line("profiles"@, decimal(facts.profiles as nat)),
        check_line("active provider"@, shown_or(facts.active_provider, "(none)"@)),
        check_line("state profile"@, shown_or(facts.state_profile, "(unknown)"@)),
        check_line(
            "LaunchAgent"@,
            if !facts.on_macos {
                "not supported on this platform"@
            } else if facts.service_installed {
                "installed"@
            } else {
                "not installed"@
            },
        ),
    ] + duplicate_lines(duplicates)
}

fn report_duplicates(duplicates: &Vec<DuplicateAuthSnapshot>) -> (r: Vec<String>)
    ensures
        views(r@) == duplicate_lines(duplicates@),
{
    let mut out: Vec<String> = Vec::new();
    if duplicates.len() == 0 {
        out.push(print_check("duplicate ChatGPT auth", "none"));
        proof {
            assert(views(out@) =~= duplicate_lines(duplicates@));
        }
        return out;
    }
    let ghost told = duplicate_lines(duplicates@);
    let mut i: usize = 0;
    proof {
        assert(views(out@) =~= told.take(0));
    }
    while i < duplicates.len()
        invariant
            duplicates@.len() > 0,
            told == duplicate_lines(duplicates@),
            i <= duplicates@.len(),
            views(out@) == told.take(i as int),
        decreases duplicates@.len() - i,
    {
        let ghost before = views(out@);
        let mut value = "profiles: ".to_owned();
        value.push_str(join(&duplicates[i].profiles, ", ").as_str());
        out.push(print_check("duplicate ChatGPT auth", value.as_str()));
        proof {
            assert(views(out@) =~= before.push(told[i as int]));
            assert(views(out@) =~= told.take(i + 1));
        }
        i += 1;
    }
    proof {
        assert(told.take(told.len() as int) =~= told);
    }
    out
}

/// The lines of a diagnosis.
pub fn run_doctor(facts: &DoctorFacts, duplicates: &Vec<DuplicateAuthSnapshot>) -> (r: Vec<String>)
    ensures
        views(r@) == doctor_lines(*facts, duplicates@),
{
    let mut out: Vec<String> = Vec::new();
    out.push("UCP doctor".to_owned());
    out.push("----------".to_owned());
    out.push(show_or("ucp binary", &facts.binary, "(unknown)"));
    out.push(show_or("Codex CLI", &facts.codex_cli, "not found in PATH"));
    let home = path_status(facts.codex_home.path.as_str(), facts.codex_home.present);
    out.push(print_check("Codex home", home.as_str()));
    let config = path_status(facts.config_toml.path.as_str(), facts.config_toml.present);
    out.push(print_check("config.toml", config.as_str()));
    let auth = path_status(facts.auth_json.path.as_str(), facts.auth_json.present);
    out.push(print_check("auth.json", auth.as_str()));
    let count = decimal_text(facts.profiles as u64);
    out.push(print_check("profiles", count.as_str()));
    out.push(show_or("active provider", &facts.active_provider, "(none)"));
    out.push(show_or("state profile", &facts.state_profile, "(unknown)"));
    let service = if !facts.on_macos {
        "not supported on this platform"
    } else if facts.service_installed {
        "installed"
    } else {
        "not installed"
    };
    out.push(print_check("LaunchAgent", service));
    let ghost head = views(out@);
    let mut rest = report_duplicates(duplicates);
    let ghost tail = views(rest@);
    out.append(&mut rest);
    proof {
        assert(views(out@) =~= head + tail);
        assert(views(out@) =~= doctor_lines(*facts, duplicates@));
    }
    out
}

} // verus!
