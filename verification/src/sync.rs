//! Switching and synchronizing: which files are captured and written, in which order, and what
//! the state file remembers.
use vstd::prelude::*;

use crate::history::splits_at;
use crate::paths::{join_path, path_below};
use crate::sessions::SessionSyncSummary;
use crate::text::{byte_len, chars_of, decimal_text, pad, same_text, text_of};
use crate::text::{decimal, opt_view, padded, utf8_len, views};

verus! {

/// The file that remembers the last synchronization.
pub fn state_file_path(codex_dir: &str) -> (r: String)
    ensures
        r@ == path_below(codex_dir@, ".ucp_state.json"@),
{
    join_path(codex_dir, ".ucp_state.json")
}

/// What the last synchronization left behind.
#[derive(Debug, PartialEq, Eq)]
pub struct SyncState {
    pub last_provider: Option<String>,
    pub last_sync: Option<String>,
    pub last_profile_name: Option<String>,
}

impl Default for SyncState {
    fn default() -> (r: Self)
        ensures
            r.last_provider is None,
            r.last_sync is None,
            r.last_profile_name is None,
    {
        SyncState { last_provider: None, last_sync: None, last_profile_name: None }
    }
}

/// The state after a synchronization.
pub fn save_state(provider: &str, profile_name: &str, now: String) -> (r: SyncState)
    ensures
        opt_view(r.last_provider) == Some(provider@),
        opt_view(r.last_sync) == Some(now@),
        opt_view(r.last_profile_name) == Some(profile_name@),
{
    SyncState {
        last_provider: Some(provider.to_owned()),
        last_sync: Some(now),
        last_profile_name: Some(profile_name.to_owned()),
    }
}

// ---------------------------------------------------------------------------
// Steps
// ---------------------------------------------------------------------------

/// A step of a switch or a synchronization. Steps are taken in order, up to the first that
/// fails.
#[derive(Debug, PartialEq, Eq)]
pub enum SyncStep {
    /// Keep the login in use as that of a profile.
    CaptureAuth(String),
    /// Take the common configuration from the one in use.
    CaptureCommon,
    /// Write the configuration of a profile.
    WriteConfig(String),
    /// Write the login of a profile.
    WriteAuth(String),
    /// Point all sessions at a provider and a model, rewriting whole rollouts where asked to.
    Reconcile(String, String, bool),
    /// Remember a provider and a profile.
    SaveState(String, String),
    /// Say that the sessions were not reconciled, since no profile is known for a provider.
    WarnUnresolved(String),
    /// Say that no profile is registered for a provider.
    WarnUnregistered(String),
}

/// A step as a mathematical value.
pub enum Step {
    CaptureAuth(Seq<char>),
    CaptureCommon,
    WriteConfig(Seq<char>),
    WriteAuth(Seq<char>),
    Reconcile(Seq<char>, Seq<char>, bool),
    SaveState(Seq<char>, Seq<char>),
    WarnUnresolved(Seq<char>),
    WarnUnregistered(Seq<char>),
}

impl View for SyncStep {
    type V = Step;

    open spec fn view(&self) -> Step {
        match *self {
            SyncStep::CaptureAuth(profile) => Step::CaptureAuth(profile@),
            SyncStep::CaptureCommon => Step::CaptureCommon,
            SyncStep::WriteConfig(profile) => Step::WriteConfig(profile@),
            SyncStep::WriteAuth(profile) => Step::WriteAuth(profile@),
            SyncStep::Reconcile(provider, model, rewrite) => Step::Reconcile(
                provider@,
                model@,
                rewrite,
            ),
            SyncStep::SaveState(provider, profile) => Step::SaveState(provider@, profile@),
            SyncStep::WarnUnresolved(provider) => Step::WarnUnresolved(provider@),
            SyncStep::WarnUnregistered(provider) => Step::WarnUnregistered(provider@),
        }
    }
}

/// The steps that a list stands for.
pub open spec fn step_views(steps: Seq<SyncStep>) -> Seq<Step> {
    steps.map_values(|s: SyncStep| s@)
}

/// One step, or none.
pub open spec fn step_if(wanted: bool, step: Step) -> Seq<Step> {
    if wanted {
        seq![step]
    } else {
        Seq::empty()
    }
}

/// What captures the files in use before they are written: the login as that of the profile
/// that was last in use, and the common configuration.
pub open spec fn capture_steps(
    last_profile: Option<Seq<char>>,
    has_auth: bool,
    has_config: bool,
) -> Seq<Step> {
    (match last_profile {
        Some(profile) => step_if(has_auth, Step::CaptureAuth(profile)),
        None => Seq::empty(),
    }) + step_if(has_config, Step::CaptureCommon)
}

fn add_step(steps: &mut Vec<SyncStep>, wanted: bool, step: SyncStep)
    ensures
        step_views(final(steps)@) == step_views(old(steps)@) + step_if(wanted, step@),
{
    let ghost before = step_views(steps@);
    if wanted {
        steps.push(step);
        proof {
            assert(step_views(steps@) =~= before + seq![step@]);
        }
    } else {
        proof {
            assert(step_views(steps@) =~= before + Seq::<Step>::empty());
        }
    }
}

fn no_steps() -> (r: Vec<SyncStep>)
    ensures
        step_views(r@) == Seq::<Step>::empty(),
{
    let steps: Vec<SyncStep> = Vec::new();
    proof {
        assert(step_views(steps@) =~= Seq::<Step>::empty());
    }
    steps
}

/// What captures the files in use before they are written.
pub fn capture_current_state(state: &SyncState, has_auth: bool, has_config: bool) -> (r: Vec<
    SyncStep,
>)
    ensures
        step_views(r@) == capture_steps(opt_view(state.last_profile_name), has_auth, has_config),
{
    let mut steps = no_steps();
    if let Some(profile) = &state.last_profile_name {
        add_step(&mut steps, has_auth, SyncStep::CaptureAuth(profile.clone()));
    }
    add_step(&mut steps, has_config, SyncStep::CaptureCommon);
    proof {
        assert(step_views(steps@) =~= capture_steps(
            opt_view(state.last_profile_name),
            has_auth,
            has_config,
        ));
    }
    steps
}

/// The steps of a switch: capture, write, reconcile, remember.
pub open spec fn switch_steps(
    profile: Seq<char>,
    provider: Seq<char>,
    model: Seq<char>,
    last_profile: Option<Seq<char>>,
    has_auth: bool,
    has_config: bool,
    rewrite: bool,
) -> Seq<Step> {
    capture_steps(last_profile, has_auth, has_config) + seq![
        Step::WriteConfig(profile),
        Step::WriteAuth(profile),
        Step::Reconcile(provider, model, rewrite),
        Step::SaveState(provider, profile),
    ]
}

/// The steps of a switch to a profile with the given provider and model.
pub fn switch_provider(
    profile_name: &str,
    provider: &str,
    model: &str,
    state: &SyncState,
    has_auth: bool,
    has_config: bool,
    rewrite: bool,
) -> (r: Vec<SyncStep>)
    ensures
        step_views(r@) == switch_steps(
            profile_name@,
            provider@,
            model@,
            opt_view(state.last_profile_name),
            has_auth,
            has_config,
            rewrite,
        ),
{
    let mut steps = capture_current_state(state, has_auth, has_config);
    let ghost captured = step_views(steps@);
    steps.push(SyncStep::WriteConfig(profile_name.to_owned()));
    steps.push(SyncStep::WriteAuth(profile_name.to_owned()));
    steps.push(SyncStep::Reconcile(provider.to_owned(), model.to_owned(), rewrite));
    steps.push(SyncStep::SaveState(provider.to_owned(), profile_name.to_owned()));
    proof {
        assert(step_views(steps@) =~= captured + seq![
            Step::WriteConfig(profile_name@),
            Step::WriteAuth(profile_name@),
            Step::Reconcile(provider@, model@, rewrite),
            Step::SaveState(provider@, profile_name@),
        ]);
    }
    steps
}

/// A switch captures the login in use before it overwrites it, where it is known whose it is.
pub proof fn a_switch_captures_before_it_writes(
    profile: Seq<char>,
    provider: Seq<char>,
    model: Seq<char>,
    last_profile: Seq<char>,
    has_config: bool,
    rewrite: bool,
)
    ensures
        ({
            let steps = switch_steps(
                profile,
                provider,
                model,
                Some(last_profile),
                true,
                has_config,
                rewrite,
            );
            &&& steps[0] == Step::CaptureAuth(last_profile)
            &&& forall|i: int|
                0 <= i < steps.len() && (#[trigger] steps[i] is WriteAuth || steps[i] is WriteConfig)
                    ==> i > 0
            &&& has_config ==> steps[1] == Step::CaptureCommon
        }),
{
}

/// What a switch remembers last is its provider: the next synchronization sees no change.
pub proof fn a_switch_is_remembered(
    profile: Seq<char>,
    provider: Seq<char>,
    model: Seq<char>,
    last_profile: Option<Seq<char>>,
    has_auth: bool,
    has_config: bool,
    rewrite: bool,
)
    ensures
        ({
            let steps = switch_steps(
                profile,
                provider,
                model,
                last_profile,
                has_auth,
                has_config,
                rewrite,
            );
            &&& steps.last() == Step::SaveState(provider, profile)
            &&& !has_changed(Some(provider), provider)
        }),
{
}

/// Whether the provider in use is another one than the last synchronization saw.
pub open spec fn has_changed(last_provider: Option<Seq<char>>, provider: Seq<char>) -> bool {
    last_provider != Some(provider)
}

/// Whether the provider in use is another one than the last synchronization saw.
pub fn provider_changed(state: &SyncState, provider: &str) -> (r: bool)
    ensures
        r == has_changed(opt_view(state.last_provider), provider@),
{
    match &state.last_provider {
        Some(last) => !same_text(last.as_str(), provider),
        None => true,
    }
}

/// What is known of the profiles in a synchronization.
pub struct ProfileFacts {
    /// The model of the profile that was last in use, where it can be loaded.
    pub named_model: Option<String>,
    /// The profile that is registered for the provider in use, with its model.
    pub registered: Option<(String, String)>,
}

/// The profile that the last synchronization remembered.
pub open spec fn remembered_profile(last_profile: Option<Seq<char>>) -> Seq<char> {
    match last_profile {
        Some(profile) => profile,
        None => "unknown"@,
    }
}

/// The model to reconcile with while the provider stays: that of the remembered profile, or
/// else that of the registered one.
pub open spec fn model_to_keep(facts: ProfileFacts) -> Option<Seq<char>> {
    match facts.named_model {
        Some(model) => Some(model@),
        None => match facts.registered {
            Some(found) => Some(found.1@),
            None => None,
        },
    }
}

/// The steps while the provider stays: the login was refreshed or the configuration grew, so
/// both are captured and nothing that is in use is written.
pub open spec fn unchanged_steps(
    provider: Seq<char>,
    last_profile: Option<Seq<char>>,
    facts: ProfileFacts,
    has_auth: bool,
    has_config: bool,
    rewrite: bool,
) -> Seq<Step> {
    let profile = remembered_profile(last_profile);
    step_if(has_auth, Step::CaptureAuth(profile)) + step_if(has_config, Step::CaptureCommon) + seq![
        match model_to_keep(facts) {
            Some(model) => Step::Reconcile(provider, model, rewrite),
            None => Step::WarnUnresolved(provider),
        },
        Step::SaveState(provider, profile),
    ]
}

/// The steps after the provider was switched from outside: what is in use is captured for the
/// registered profile. Nothing is done where no profile is registered.
pub open spec fn changed_steps(
    provider: Seq<char>,
    facts: ProfileFacts,
    has_auth: bool,
    has_config: bool,
    rewrite: bool,
) -> Seq<Step> {
    match facts.registered {
        None => seq![Step::WarnUnregistered(provider)],
        Some(found) => step_if(has_config, Step::CaptureCommon) + step_if(
            has_auth,
            Step::CaptureAuth(found.0@),
        ) + seq![
            Step::Reconcile(provider, found.1@, rewrite),
            Step::SaveState(provider, found.0@),
        ],
    }
}

/// The steps of a synchronization; none where the configuration names no provider.
pub open spec fn sync_steps(
    provider: Option<Seq<char>>,
    state: SyncState,
    facts: ProfileFacts,
    has_auth: bool,
    has_config: bool,
    rewrite: bool,
) -> Seq<Step> {
    match provider {
        None => Seq::empty(),
        Some(provider) => if has_changed(opt_view(state.last_provider), provider) {
            changed_steps(provider, facts, has_auth, has_config, rewrite)
        } else {
            unchanged_steps(
                provider,
                opt_view(state.last_profile_name),
                facts,
                has_auth,
                has_config,
                rewrite,
            )
        },
    }
}

fn plan_unchanged(
    provider: &str,
    state: &SyncState,
    facts: &ProfileFacts,
    has_auth: bool,
    has_config: bool,
    rewrite: bool,
) -> (r: Vec<SyncStep>)
    ensures
        step_views(r@) == unchanged_steps(
            provider@,
            opt_view(state.last_profile_name),
            *facts,
            has_auth,
            has_config,
            rewrite,
        ),
{
    let profile = match &state.last_profile_name {
        Some(profile) => profile.clone(),
        None => "unknown".to_owned(),
    };
    let mut steps = no_steps();
    add_step(&mut steps, has_auth, SyncStep::CaptureAuth(profile.clone()));
    add_step(&mut steps, has_config, SyncStep::CaptureCommon);
    let ghost captured = step_views(steps@);
    let model = match &facts.named_model {
        Some(model) => Some(model.clone()),
        None => match &facts.registered {
            Some(found) => Some(found.1.clone()),
            None => None,
        },
    };
    let reconcile = match model {
        Some(model) => SyncStep::Reconcile(provider.to_owned(), model, rewrite),
        None => SyncStep::WarnUnresolved(provider.to_owned()),
    };
    let ghost middle = reconcile@;
    let ghost profile_text = profile@;
    steps.push(reconcile);
    steps.push(SyncStep::SaveState(provider.to_owned(), profile));
    proof {
        assert(step_views(steps@) =~= captured + seq![
            middle,
            Step::SaveState(provider@, profile_text),
        ]);
        assert(step_views(steps@) =~= unchanged_steps(
            provider@,
            opt_view(state.last_profile_name),
            *facts,
            has_auth,
            has_config,
            rewrite,
        ));
    }
    steps
}

fn plan_changed(
    provider: &str,
    facts: &ProfileFacts,
    has_auth: bool,
    has_config: bool,
    rewrite: bool,
) -> (r: Vec<SyncStep>)
    ensures
        step_views(r@) == changed_steps(provider@, *facts, has_auth, has_config, rewrite),
{
    let mut steps = no_steps();
    match &facts.registered {
        None => {
            steps.push(SyncStep::WarnUnregistered(provider.to_owned()));
            proof {
                assert(step_views(steps@) =~= seq![Step::WarnUnregistered(provider@)]);
            }
        },
        Some(found) => {
            add_step(&mut steps, has_config, SyncStep::CaptureCommon);
            add_step(&mut steps, has_auth, SyncStep::CaptureAuth(found.0.clone()));
            let ghost captured = step_views(steps@);
            steps.push(SyncStep::Reconcile(provider.to_owned(), found.1.clone(), rewrite));
            steps.push(SyncStep::SaveState(provider.to_owned(), found.0.clone()));
            proof {
                assert(step_views(steps@) =~= captured + seq![
                    Step::Reconcile(provider@, found.1@, rewrite),
                    Step::SaveState(provider@, found.0@),
                ]);
                assert(step_views(steps@) =~= changed_steps(
                    provider@,
                    *facts,
                    has_auth,
                    has_config,
                    rewrite,
                ));
            }
        },
    }
    steps
}

/// The steps of a synchronization with the provider that the configuration names.
pub fn auto_sync_with_options(
    provider: &Option<String>,
    state: &SyncState,
    facts: &ProfileFacts,
    has_auth: bool,
    has_config: bool,
    rewrite: bool,
) -> (r: Vec<SyncStep>)
    ensures
        step_views(r@) == sync_steps(opt_view(*provider), *state, *facts, has_auth, has_config, rewrite),
{
    match provider {
        None => no_steps(),
        Some(provider) => {
            if provider_changed(state, provider.as_str()) {
                plan_changed(provider.as_str(), facts, has_auth, has_config, rewrite)
            } else {
                plan_unchanged(provider.as_str(), state, facts, has_auth, has_config, rewrite)
            }
        },
    }
}

/// The steps of a synchronization that a change of a file caused: no rollout is rewritten as a
/// whole.
pub fn auto_sync(
    provider: &Option<String>,
    state: &SyncState,
    facts: &ProfileFacts,
    has_auth: bool,
    has_config: bool,
) -> (r: Vec<SyncStep>)
    ensures
        step_views(r@) == sync_steps(
            opt_view(*provider),
            *state,
            *facts,
            has_auth,
            has_config,
            false,
        ),
{
    auto_sync_with_options(provider, state, facts, has_auth, has_config, false)
}

/// The steps of a synchronization that the user asked for.
pub fn manual_sync(
    provider: &Option<String>,
    state: &SyncState,
    facts: &ProfileFacts,
    has_auth: bool,
    has_config: bool,
    rewrite: bool,
) -> (r: Vec<SyncStep>)
    ensures
        step_views(r@) == sync_steps(
            opt_view(*provider),
            *state,
            *facts,
            has_auth,
            has_config,
            rewrite,
        ),
{
    auto_sync_with_options(provider, state, facts, has_auth, has_config, rewrite)
}

/// A synchronization never writes the login or the configuration that is in use.
pub proof fn a_sync_writes_nothing_in_use(
    provider: Option<Seq<char>>,
    state: SyncState,
    facts: ProfileFacts,
    has_auth: bool,
    has_config: bool,
    rewrite: bool,
    i: int,
)
    requires
        0 <= i < sync_steps(provider, state, facts, has_auth, has_config, rewrite).len(),
    ensures
        !(sync_steps(provider, state, facts, has_auth, has_config, rewrite)[i] is WriteConfig),
        !(sync_steps(provider, state, facts, has_auth, has_config, rewrite)[i] is WriteAuth),
{
}

/// What a synchronization remembers is the provider in use: the next one sees no change.
pub proof fn a_sync_is_remembered(
    provider: Seq<char>,
    state: SyncState,
    facts: ProfileFacts,
    has_auth: bool,
    has_config: bool,
    rewrite: bool,
)
    requires
        facts.registered is Some || !has_changed(opt_view(state.last_provider), provider),
    ensures
        ({
            let steps = sync_steps(Some(provider), state, facts, has_auth, has_config, rewrite);
            &&& steps.last() is SaveState
            &&& steps.last()->SaveState_0 == provider
            &&& !has_changed(Some(steps.last()->SaveState_0), provider)
        }),
{
}

// ---------------------------------------------------------------------------
// Reports
// ---------------------------------------------------------------------------

/// Whether a synchronization of sessions did anything worth a line.
pub open spec fn is_worth_a_line(s: SessionSyncSummary) -> bool {
    s.rollouts_modified > 0 || s.rollout_errors > 0 || s.db_records_updated > 0 || s.db_errors > 0
}

/// The line on the sessions after a synchronization, where anything was done.
pub fn sessions_line(s: &SessionSyncSummary) -> (r: Option<String>)
    requires
        s.rollout_errors + s.db_errors <= usize::MAX,
    ensures
        r is Some <==> is_worth_a_line(*s),
        r is Some ==> r->0@ == "  Sessions: "@ + decimal(s.rollouts_modified as nat)
            + " rollout(s), "@ + decimal(s.metadata_lines_updated as nat)
            + " metadata line(s), "@ + decimal(s.db_records_updated as nat) + " DB row(s), "@
            + decimal((s.rollout_errors + s.db_errors) as nat) + " error(s)"@,
{
    if s.rollouts_modified > 0 || s.rollout_errors > 0 || s.db_records_updated > 0 || s.db_errors
        > 0 {
        let errors: usize = s.rollout_errors + s.db_errors;
        let mut out = "  Sessions: ".to_owned();
        out.push_str(decimal_text(s.rollouts_modified as u64).as_str());
        out.push_str(" rollout(s), ");
        out.push_str(decimal_text(s.metadata_lines_updated as u64).as_str());
        out.push_str(" metadata line(s), ");
        out.push_str(decimal_text(s.db_records_updated as u64).as_str());
        out.push_str(" DB row(s), ");
        out.push_str(decimal_text(errors as u64).as_str());
        out.push_str(" error(s)");
        Some(out)
    } else {
        None
    }
}

/// The line on the rollouts after a switch.
pub fn rollouts_line(s: &SessionSyncSummary) -> (r: String)
    ensures
        r@ == "  Rollouts: "@ + decimal(s.rollouts_modified as nat) + " modified, "@ + decimal(
            s.rollouts_skipped as nat,
        ) + " skipped, "@ + decimal(s.metadata_lines_updated as nat) + " metadata lines, "@
            + decimal(s.rollout_errors as nat) + " errors; DB: "@ + decimal(
            s.db_records_updated as nat,
        ) + " rows, "@ + decimal(s.db_errors as nat) + " errors"@,
{
    let mut out = "  Rollouts: ".to_owned();
    out.push_str(decimal_text(s.rollouts_modified as u64).as_str());
    out.push_str(" modified, ");
    out.push_str(decimal_text(s.rollouts_skipped as u64).as_str());
    out.push_str(" skipped, ");
    out.push_str(decimal_text(s.metadata_lines_updated as u64).as_str());
    out.push_str(" metadata lines, ");
    out.push_str(decimal_text(s.rollout_errors as u64).as_str());
    out.push_str(" errors; DB: ");
    out.push_str(decimal_text(s.db_records_updated as u64).as_str());
    out.push_str(" rows, ");
    out.push_str(decimal_text(s.db_errors as u64).as_str());
    out.push_str(" errors");
    out
}

/// Whether the provider in use is the one that the last synchronization saw.
pub open spec fn is_consistent(provider: Option<Seq<char>>, last_provider: Option<Seq<char>>) -> bool {
    provider is Some && last_provider is Some && provider->0 == last_provider->0
}

/// The first bytes of a text, which end between two characters.
pub open spec fn is_first_bytes(short: Seq<char>, s: Seq<char>, n: nat) -> bool {
    exists|k: int| 0 <= k <= s.len() && utf8_len(#[trigger] s.take(k)) == n && short == s.take(k)
}

/// The first bytes of a text, or all of a shorter one.
pub fn shortened(s: &str, n: usize) -> (r: String)
    requires
        utf8_len(s@) > n ==> splits_at(s@, n as nat),
    ensures
        utf8_len(s@) <= n ==> r@ == s@,
        utf8_len(s@) > n ==> is_first_bytes(r@, s@, n as nat),
{
    if byte_len(s) <= n {
        return s.to_owned();
    }
    let chars = chars_of(s);
    let mut k: usize = 0;
    while k < chars.len()
        invariant
            chars@ == s@,
            k <= chars@.len(),
            utf8_len(s@) > n,
            splits_at(s@, n as nat),
            forall|j: int| 0 <= j < k ==> utf8_len(#[trigger] s@.take(j)) != n,
        decreases chars@.len() - k,
    {
        let short = text_of(&chars, 0, k);
        proof {
            assert(chars@.subrange(0, k as int) =~= s@.take(k as int));
        }
        if byte_len(short.as_str()) == n {
            return short;
        }
        k += 1;
    }
    proof {
        let j = choose|j: int| 0 <= j <= s@.len() && utf8_len(#[trigger] s@.take(j)) == n;
        assert(j == s@.len());
    }
    let all = text_of(&chars, 0, chars.len());
    proof {
        assert(chars@.subrange(0, chars@.len() as int) =~= s@.take(s@.len() as int));
    }
    all
}

/// A line of the status box with a value.
pub open spec fn box_line(name: Seq<char>, value: Seq<char>) -> Seq<char> {
    "│ "@ + name + padded(value, 22) + " │"@
}

fn draw_line(name: &str, value: &str) -> (r: String)
    ensures
        r@ == box_line(name@, value@),
{
    let mut out = "│ ".to_owned();
    out.push_str(name);
    out.push_str(pad(value, 22).as_str());
    out.push_str(" │");
    out
}

/// Whether lines are the status box: what is in use, what was last synchronized and when, and
/// whether the two agree.
pub open spec fn is_status_box(
    lines: Seq<Seq<char>>,
    provider: Option<Seq<char>>,
    state: SyncState,
) -> bool {
    &&& lines.len() == (if is_consistent(provider, opt_view(state.last_provider)) {
        8nat
    } else {
        10nat
    })
    &&& lines[0] == "┌─────────────────────────────────────────┐"@
    &&& lines[1] == "│ UnifiedCodexProvider Status              │"@
    &&& lines[2] == "├─────────────────────────────────────────┤"@
    &&& lines[3] == (match provider {
        Some(p) => box_line("Active provider: "@, p),
        None => "│ Active provider: (none)                 │"@,
    })
    &&& lines[4] == (match state.last_profile_name {
        Some(name) => box_line("Profile name:    "@, name@),
        None => "│ Profile name:    (unknown)              │"@,
    })
    &&& match state.last_sync {
        Some(time) => if utf8_len(time@) > 19 {
            exists|short: Seq<char>|
                is_first_bytes(short, time@, 19) && lines[5] == #[trigger] box_line(
                    "Last sync:       "@,
                    short,
                )
        } else {
            lines[5] == box_line("Last sync:       "@, time@)
        },
        None => lines[5] == "│ Last sync:       (never)                │"@,
    }
    &&& lines[6] == box_line(
        "State:           "@,
        if is_consistent(provider, opt_view(state.last_provider)) {
            "✓ consistent"@
        } else {
            "⚠ inconsistent"@
        },
    )
    &&& lines[7] == "└─────────────────────────────────────────┘"@
    &&& !is_consistent(provider, opt_view(state.last_provider)) ==> lines[8] == ""@ && lines[9]
        == "Run 'ucp sync' to fix inconsistency."@
}

/// The status box.
pub fn show_status(provider: &Option<String>, state: &SyncState) -> (r: Vec<String>)
    requires
        state.last_sync is Some && utf8_len(state.last_sync->0@) > 19 ==> splits_at(
            state.last_sync->0@,
            19,
        ),
    ensures
        is_status_box(views(r@), opt_view(*provider), *state),
{
    let mut out: Vec<String> = Vec::new();
    out.push("┌─────────────────────────────────────────┐".to_owned());
    out.push("│ UnifiedCodexProvider Status              │".to_owned());
    out.push("├─────────────────────────────────────────┤".to_owned());
    match provider {
        Some(p) => out.push(draw_line("Active provider: ", p.as_str())),
        None => out.push("│ Active provider: (none)                 │".to_owned()),
    }
    match &state.last_profile_name {
        Some(name) => out.push(draw_line("Profile name:    ", name.as_str())),
        None => out.push("│ Profile name:    (unknown)              │".to_owned()),
    }
    match &state.last_sync {
        Some(time) => {
            let short = shortened(time.as_str(), 19);
            out.push(draw_line("Last sync:       ", short.as_str()));
        },
        None => out.push("│ Last sync:       (never)                │".to_owned()),
    }
    let consistent = match (provider, &state.last_provider) {
        (Some(p), Some(last)) => same_text(p.as_str(), last.as_str()),
        _ => false,
    };
    if consistent {
        out.push(draw_line("State:           ", "✓ consistent"));
    } else {
        out.push(draw_line("State:           ", "⚠ inconsistent"));
    }
    out.push("└─────────────────────────────────────────┘".to_owned());
    if !consistent {
        out.push("".to_owned());
        out.push("Run 'ucp sync' to fix inconsistency.".to_owned());
    }
    out
}

} // verus!
