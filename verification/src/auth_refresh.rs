//! Keeping stored account snapshots fresh: which of them to refresh, how to make an outside
//! refresh necessary, and whether it took place.
use vstd::prelude::*;
use vstd::utf8::*;

use crate::json::{json_of_text, json_pretty_text, JsonTree};
use crate::json::{parse, Json};
use crate::lists::{lemma_filter_step, lemma_no_items};
use crate::moments::{elapsed_nanos, hours_later, parse_moment, Moment};
use crate::moments::{moment_of_text, nanos_between, LAST_SECOND, NANOS_PER_SECOND};
use crate::text::{
    byte_len, chars_of, copy_list, decimal_text, join, lines, pad, same_text, trim, words, CharClass,
};
use crate::text::{
    decimal, is_word, joined, joined_words_read_back, lemma_words, lines_of, opt_view, padded,
    signed_decimal, trimmed, utf8_len, views, words_of,
};
use crate::tokens::{claim_moment, token_with_claim};
use crate::tokens::{claimed_moment, rewrite_jwt_timestamp};

verus! {

// ---------------------------------------------------------------------------
// Options and summaries
// ---------------------------------------------------------------------------

/// How long before the end of an access token it is refreshed, in hours.
pub const REFRESH_MARGIN_HOURS: i64 = 72;

/// Which snapshots to refresh, and when.
#[derive(Debug)]
pub struct AuthRefreshOptions {
    pub profile_name: Option<String>,
    pub all: bool,
    pub force: bool,
    pub dry_run: bool,
    pub min_interval_hours: u64,
    pub max_stale_days: u64,
    pub quiet: bool,
}

impl Default for AuthRefreshOptions {
    fn default() -> (r: Self)
        ensures
            r.profile_name is None,
            r.all,
            !r.force,
            !r.dry_run,
            r.min_interval_hours == 24,
            r.max_stale_days == 7,
            !r.quiet,
    {
        AuthRefreshOptions {
            profile_name: None,
            all: true,
            force: false,
            dry_run: false,
            min_interval_hours: 24,
            max_stale_days: 7,
            quiet: false,
        }
    }
}

/// What a refresh did.
#[derive(Debug, Clone, Copy, PartialEq, Eq, Structural)]
pub struct AuthRefreshSummary {
    pub scanned: usize,
    pub refreshed: usize,
    pub fresh: usize,
    pub would_refresh: usize,
    pub skipped_non_chatgpt: usize,
    pub skipped_stale: usize,
    pub missing_snapshot: usize,
    pub failed: usize,
}

/// What to do with a snapshot, and why.
#[derive(Debug, PartialEq, Eq)]
pub enum RefreshDecision {
    Refresh(String),
    Fresh(String),
    SkipNonChatGpt(String),
    SkipStale(String),
    MissingSnapshot(String),
}

/// What to do with a snapshot, and why, as a mathematical value.
pub enum Decision {
    Refresh(Seq<char>),
    Fresh(Seq<char>),
    SkipNonChatGpt(Seq<char>),
    SkipStale(Seq<char>),
    MissingSnapshot(Seq<char>),
}

impl View for RefreshDecision {
    type V = Decision;

    open spec fn view(&self) -> Decision {
        match *self {
            RefreshDecision::Refresh(reason) => Decision::Refresh(reason@),
            RefreshDecision::Fresh(reason) => Decision::Fresh(reason@),
            RefreshDecision::SkipNonChatGpt(reason) => Decision::SkipNonChatGpt(reason@),
            RefreshDecision::SkipStale(reason) => Decision::SkipStale(reason@),
            RefreshDecision::MissingSnapshot(reason) => Decision::MissingSnapshot(reason@),
        }
    }
}

// ---------------------------------------------------------------------------
// What a snapshot tells
// ---------------------------------------------------------------------------

/// Whether a snapshot is one of a ChatGPT login.
pub open spec fn is_chatgpt(snapshot: JsonTree) -> bool {
    snapshot.text_at("auth_mode"@) == Some("chatgpt"@)
}

/// A token of a snapshot.
pub open spec fn token_of(snapshot: JsonTree, name: Seq<char>) -> Option<Seq<char>> {
    match snapshot.get("tokens"@) {
        Some(tokens) => tokens.text_at(name),
        None => None,
    }
}

/// Whether a snapshot can be refreshed at all.
pub open spec fn has_refresh_token(snapshot: JsonTree) -> bool {
    token_of(snapshot, "refresh_token"@) is Some && token_of(snapshot, "refresh_token"@)->0.len()
        > 0
}

/// When a snapshot was last refreshed.
pub open spec fn last_refresh_of(snapshot: JsonTree) -> Option<Moment> {
    match snapshot.text_at("last_refresh"@) {
        Some(text) => moment_of_text(text),
        None => None,
    }
}

/// When a token of a snapshot ends, or whatever moment it claims.
pub open spec fn snapshot_moment(snapshot: JsonTree, token: Seq<char>, claim: Seq<char>) -> Option<
    Moment,
> {
    match token_of(snapshot, token) {
        Some(token) => claim_moment(token, claim),
        None => None,
    }
}

/// When the access token of a snapshot ends.
pub open spec fn access_end_of(snapshot: JsonTree) -> Option<Moment> {
    snapshot_moment(snapshot, "access_token"@, "exp"@)
}

/// A token of a snapshot.
pub fn snapshot_token<'a>(snapshot: &'a Json, name: &str) -> (r: Option<&'a String>)
    ensures
        (match r {
            Some(token) => Some(token@),
            None => None,
        }) == token_of(snapshot@, name@),
{
    match snapshot.get("tokens") {
        Some(tokens) => tokens.text_at(name),
        None => None,
    }
}

/// When a snapshot was last refreshed.
pub fn parse_last_refresh(snapshot: &Json) -> (r: Option<Moment>)
    ensures
        r == last_refresh_of(snapshot@),
        r is Some ==> r->0.is_valid(),
{
    match snapshot.text_at("last_refresh") {
        Some(text) => parse_moment(text.as_str()),
        None => None,
    }
}

/// The moment that a claim of a token of a snapshot names.
pub fn jwt_timestamp(snapshot: &Json, token_name: &str, claim: &str) -> (r: Option<Moment>)
    ensures
        r == snapshot_moment(snapshot@, token_name@, claim@),
        r is Some ==> r->0.is_ordinary(),
{
    match snapshot_token(snapshot, token_name) {
        Some(token) => claimed_moment(token.as_str(), claim),
        None => None,
    }
}

// ---------------------------------------------------------------------------
// Deciding
// ---------------------------------------------------------------------------

/// The nanoseconds of days.
pub open spec fn days_in_nanos(days: int) -> int {
    days * 86400 * 1000000000
}

/// The nanoseconds of hours.
pub open spec fn hours_in_nanos(hours: int) -> int {
    hours * 3600 * 1000000000
}

/// Whether a snapshot is too old to be worth a refresh, and why: it was refreshed too long
/// ago, or else its access token ended too long ago, or else nothing tells.
pub open spec fn stale_reason(
    last_refresh: Option<Moment>,
    access_end: Option<Moment>,
    now: Moment,
    max_stale_days: int,
) -> Option<Seq<char>> {
    match last_refresh {
        Some(last) => if nanos_between(last, now) > days_in_nanos(max_stale_days) {
            Some("last refresh is older than "@ + signed_decimal(max_stale_days) + " days"@)
        } else {
            None
        },
        None => match access_end {
            Some(end) => if nanos_between(end, now) > days_in_nanos(max_stale_days) {
                Some(
                    "access token expired more than "@ + signed_decimal(max_stale_days)
                        + " days ago"@,
                )
            } else {
                None
            },
            None => Some("cannot determine snapshot age"@),
        },
    }
}

/// Whether a snapshot is due for a refresh, and why: the last one was long enough ago, or its
/// access token ends soon.
pub open spec fn due_reason(
    last_refresh: Option<Moment>,
    access_end: Option<Moment>,
    now: Moment,
    min_interval_hours: int,
) -> Option<Seq<char>> {
    if last_refresh is Some && nanos_between(last_refresh->0, now) >= hours_in_nanos(
        min_interval_hours,
    ) {
        Some("last refresh is at least "@ + signed_decimal(min_interval_hours) + " hours old"@)
    } else if access_end is Some && !access_end->0.later_than(
        Moment { secs: (now.secs + 259200) as i64, nanos: now.nanos },
    ) {
        Some("access token expires within 72 hours"@)
    } else {
        None
    }
}

/// What to do with a snapshot that was read.
pub open spec fn decision_of(
    snapshot: JsonTree,
    force: bool,
    min_interval_hours: int,
    max_stale_days: int,
    now: Moment,
) -> Decision {
    let last = last_refresh_of(snapshot);
    let end = access_end_of(snapshot);
    if !is_chatgpt(snapshot) {
        Decision::SkipNonChatGpt("auth_mode is not chatgpt"@)
    } else if !has_refresh_token(snapshot) {
        Decision::SkipNonChatGpt("missing ChatGPT refresh token"@)
    } else if force {
        Decision::Refresh("forced"@)
    } else if stale_reason(last, end, now, max_stale_days) is Some {
        Decision::SkipStale(stale_reason(last, end, now, max_stale_days)->0)
    } else if due_reason(last, end, now, min_interval_hours) is Some {
        Decision::Refresh(due_reason(last, end, now, min_interval_hours)->0)
    } else {
        Decision::Fresh("snapshot is recent and token is not near expiry"@)
    }
}

fn with_number(before: &str, number: i64, after: &str) -> (r: String)
    ensures
        r@ == before@ + signed_decimal(number as int) + after@,
{
    let mut out = before.to_owned();
    if number < 0 {
        out.push('-');
        let size: u64 = (-(number as i128)) as u64;
        out.push_str(decimal_text(size).as_str());
        proof {
            assert(before@.push('-') + decimal(size as nat) =~= before@ + signed_decimal(
                number as int,
            ));
        }
    } else {
        out.push_str(decimal_text(number as u64).as_str());
    }
    out.push_str(after);
    out
}

fn find_stale_reason(
    last_refresh: &Option<Moment>,
    access_end: &Option<Moment>,
    now: &Moment,
    max_stale_days: i64,
) -> (r: Option<String>)
    requires
        now.is_ordinary(),
        last_refresh is Some ==> last_refresh->0.is_valid(),
        access_end is Some ==> access_end->0.is_valid(),
    ensures
        opt_view(r) == stale_reason(*last_refresh, *access_end, *now, max_stale_days as int),
{
    let limit: i128 = (max_stale_days as i128) * 86400 * NANOS_PER_SECOND;
    match last_refresh {
        Some(last) => {
            if elapsed_nanos(last, now) > limit {
                return Some(with_number("last refresh is older than ", max_stale_days, " days"));
            }
            None
        },
        None => match access_end {
            Some(end) => {
                if elapsed_nanos(end, now) > limit {
                    return Some(
                        with_number("access token expired more than ", max_stale_days, " days ago"),
                    );
                }
                None
            },
            None => Some("cannot determine snapshot age".to_owned()),
        },
    }
}

fn find_due_reason(
    last_refresh: &Option<Moment>,
    access_end: &Option<Moment>,
    now: &Moment,
    min_interval_hours: i64,
) -> (r: Option<String>)
    requires
        now.is_ordinary(),
        now.secs + 259200 <= LAST_SECOND,
        last_refresh is Some ==> last_refresh->0.is_valid(),
    ensures
        opt_view(r) == due_reason(*last_refresh, *access_end, *now, min_interval_hours as int),
{
    let limit: i128 = (min_interval_hours as i128) * 3600 * NANOS_PER_SECOND;
    if let Some(last) = last_refresh {
        if elapsed_nanos(last, now) >= limit {
            return Some(
                with_number("last refresh is at least ", min_interval_hours, " hours old"),
            );
        }
    }
    if let Some(end) = access_end {
        let margin = hours_later(*now, REFRESH_MARGIN_HOURS);
        if !end.is_later_than(&margin) {
            return Some("access token expires within 72 hours".to_owned());
        }
    }
    None
}

/// What to do with a snapshot that was read.
pub fn decide(
    snapshot: &Json,
    force: bool,
    min_interval_hours: i64,
    max_stale_days: i64,
    now: &Moment,
) -> (r: RefreshDecision)
    requires
        now.is_ordinary(),
        now.secs + 259200 <= LAST_SECOND,
    ensures
        r@ == decision_of(
            snapshot@,
            force,
            min_interval_hours as int,
            max_stale_days as int,
            *now,
        ),
{
    let chatgpt = match snapshot.text_at("auth_mode") {
        Some(mode) => same_text(mode.as_str(), "chatgpt"),
        None => false,
    };
    if !chatgpt {
        return RefreshDecision::SkipNonChatGpt("auth_mode is not chatgpt".to_owned());
    }
    let refreshable = match snapshot_token(snapshot, "refresh_token") {
        Some(token) => !token.as_str().is_empty(),
        None => false,
    };
    if !refreshable {
        return RefreshDecision::SkipNonChatGpt("missing ChatGPT refresh token".to_owned());
    }
    if force {
        return RefreshDecision::Refresh("forced".to_owned());
    }
    let last_refresh = parse_last_refresh(snapshot);
    let access_end = jwt_timestamp(snapshot, "access_token", "exp");
    if let Some(reason) = find_stale_reason(&last_refresh, &access_end, now, max_stale_days) {
        return RefreshDecision::SkipStale(reason);
    }
    if let Some(reason) = find_due_reason(&last_refresh, &access_end, now, min_interval_hours) {
        return RefreshDecision::Refresh(reason);
    }
    RefreshDecision::Fresh("snapshot is recent and token is not near expiry".to_owned())
}

/// A snapshot that is no JSON document.
#[derive(Debug, Clone, Copy, PartialEq, Eq, Structural)]
pub struct UnreadableSnapshot;

/// What to do with the snapshot at a path: its content is `None` where there is none.
pub fn decide_snapshot(
    path: &str,
    content: Option<&str>,
    force: bool,
    min_interval_hours: i64,
    max_stale_days: i64,
    now: &Moment,
) -> (r: Result<RefreshDecision, UnreadableSnapshot>)
    requires
        now.is_ordinary(),
        now.secs + 259200 <= LAST_SECOND,
    ensures
        match content {
            None => r is Ok && r->Ok_0@ == Decision::MissingSnapshot("no auth snapshot at "@ + path@),
            Some(text) => match json_of_text(text@) {
                None => r is Err,
                Some(snapshot) => r is Ok && r->Ok_0@ == decision_of(
                    snapshot,
                    force,
                    min_interval_hours as int,
                    max_stale_days as int,
                    *now,
                ),
            },
        },
{
    let text = match content {
        Some(text) => text,
        None => {
            let mut reason = "no auth snapshot at ".to_owned();
            reason.push_str(path);
            return Ok(RefreshDecision::MissingSnapshot(reason));
        },
    };
    match parse(text) {
        Some(snapshot) => Ok(decide(&snapshot, force, min_interval_hours, max_stale_days, now)),
        None => Err(UnreadableSnapshot),
    }
}

/// A snapshot that was refreshed within the interval and whose token does not end soon is
/// left alone, unless a refresh is forced.
pub proof fn recent_snapshots_are_left_alone(
    snapshot: JsonTree,
    min_interval_hours: int,
    max_stale_days: int,
    now: Moment,
)
    requires
        is_chatgpt(snapshot),
        has_refresh_token(snapshot),
        last_refresh_of(snapshot) is Some,
        nanos_between(last_refresh_of(snapshot)->0, now) < hours_in_nanos(min_interval_hours),
        nanos_between(last_refresh_of(snapshot)->0, now) <= days_in_nanos(max_stale_days),
        access_end_of(snapshot) is Some ==> access_end_of(snapshot)->0.later_than(
            Moment { secs: (now.secs + 259200) as i64, nanos: now.nanos },
        ),
    ensures
        decision_of(snapshot, false, min_interval_hours, max_stale_days, now) is Fresh,
        decision_of(snapshot, true, min_interval_hours, max_stale_days, now) is Refresh,
{
}

/// A snapshot that was not refreshed within the interval, and that is not historical, is
/// refreshed.
pub proof fn due_snapshots_are_refreshed(
    snapshot: JsonTree,
    force: bool,
    min_interval_hours: int,
    max_stale_days: int,
    now: Moment,
)
    requires
        is_chatgpt(snapshot),
        has_refresh_token(snapshot),
        last_refresh_of(snapshot) is Some,
        nanos_between(last_refresh_of(snapshot)->0, now) >= hours_in_nanos(min_interval_hours),
        nanos_between(last_refresh_of(snapshot)->0, now) <= days_in_nanos(max_stale_days),
    ensures
        decision_of(snapshot, force, min_interval_hours, max_stale_days, now) is Refresh,
{
}

/// Only a ChatGPT snapshot with a refresh token is ever refreshed, whatever is asked for.
pub proof fn only_refreshable_snapshots_are_refreshed(
    snapshot: JsonTree,
    force: bool,
    min_interval_hours: int,
    max_stale_days: int,
    now: Moment,
)
    ensures
        decision_of(snapshot, force, min_interval_hours, max_stale_days, now) is Refresh
            ==> is_chatgpt(snapshot) && has_refresh_token(snapshot),
{
}

/// A historical snapshot is skipped unless a refresh is forced.
pub proof fn stale_snapshots_are_skipped(
    snapshot: JsonTree,
    min_interval_hours: int,
    max_stale_days: int,
    now: Moment,
)
    requires
        is_chatgpt(snapshot),
        has_refresh_token(snapshot),
        last_refresh_of(snapshot) is Some,
        nanos_between(last_refresh_of(snapshot)->0, now) > days_in_nanos(max_stale_days),
    ensures
        decision_of(snapshot, false, min_interval_hours, max_stale_days, now) is SkipStale,
        decision_of(snapshot, true, min_interval_hours, max_stale_days, now) is Refresh,
{
}

// ---------------------------------------------------------------------------
// Whether a refresh took place
// ---------------------------------------------------------------------------

/// Whether the second of two optional moments is later than the first.
pub open spec fn moved_on(before: Option<Moment>, after: Option<Moment>) -> bool {
    before is Some && after is Some && after->0.later_than(before->0)
}

/// Whether a snapshot is fresher than another: refreshed later, or with an access token that
/// ends later.
pub open spec fn is_fresher(before: JsonTree, after: JsonTree) -> bool {
    moved_on(last_refresh_of(before), last_refresh_of(after)) || moved_on(
        access_end_of(before),
        access_end_of(after),
    )
}

/// Whether a snapshot is fresher than another.
pub fn auth_was_refreshed(before: &Json, after: &Json) -> (r: bool)
    ensures
        r == is_fresher(before@, after@),
{
    if let (Some(old), Some(new)) = (parse_last_refresh(before), parse_last_refresh(after)) {
        if new.is_later_than(&old) {
            return true;
        }
    }
    match (
        jwt_timestamp(before, "access_token", "exp"),
        jwt_timestamp(after, "access_token", "exp"),
    ) {
        (Some(old), Some(new)) => new.is_later_than(&old),
        _ => false,
    }
}

/// A snapshot is not fresher than itself: a refresh that changes nothing is seen as none.
pub proof fn no_change_is_no_refresh(snapshot: JsonTree)
    ensures
        !is_fresher(snapshot, snapshot),
{
}

// ---------------------------------------------------------------------------
// Making a refresh necessary
// ---------------------------------------------------------------------------

/// The snapshot with the time of one of its tokens set, where it has that token and the token
/// can be rewritten.
pub open spec fn with_token_time(snapshot: JsonTree, name: Seq<char>, time: i64) -> JsonTree {
    match token_of(snapshot, name) {
        Some(token) => match token_with_claim(token, "exp"@, time) {
            Ok(made) => {
                let tokens = snapshot.get("tokens"@)->0->Object_0;
                JsonTree::Object(
                    snapshot->Object_0.insert(
                        "tokens"@,
                        JsonTree::Object(tokens.insert(name, JsonTree::Text(made))),
                    ),
                )
            },
            Err(_) => snapshot,
        },
        None => snapshot,
    }
}

/// The snapshot with the times of its access and id tokens set.
pub open spec fn with_token_times(snapshot: JsonTree, time: i64) -> JsonTree {
    with_token_time(with_token_time(snapshot, "access_token"@, time), "id_token"@, time)
}

fn set_token_time(snapshot: Json, name: &str, time: i64) -> (r: Json)
    ensures
        r@ == with_token_time(snapshot@, name@, time),
{
    let made = match snapshot_token(&snapshot, name) {
        Some(token) => match rewrite_jwt_timestamp(token.as_str(), "exp", time) {
            Ok(made) => made,
            Err(_) => {
                return snapshot;
            },
        },
        None => {
            return snapshot;
        },
    };
    let ghost made_text = made@;
    match snapshot {
        Json::Object(members) => {
            let mut members = members;
            let ghost whole = members@;
            match members.take("tokens") {
                Some(Json::Object(tokens)) => {
                    let mut tokens = tokens;
                    let ghost old_tokens = tokens@;
                    tokens.insert(name.to_owned(), Json::Text(made));
                    let ghost new_tokens = tokens@;
                    members.insert("tokens".to_owned(), Json::Object(tokens));
                    proof {
                        assert(members@ =~= whole.insert("tokens"@, JsonTree::Object(new_tokens)));
                    }
                    Json::Object(members)
                },
                Some(other) => {
                    members.insert("tokens".to_owned(), other);
                    Json::Object(members)
                },
                None => Json::Object(members),
            }
        },
        other => other,
    }
}

/// The content of a snapshot whose access and id tokens ended a minute before the given
/// second, so that the next use of it has to refresh them.
pub fn force_expired_tokens(content: &str, now_secs: i64) -> (r: Result<String, UnreadableSnapshot>)
    requires
        i64::MIN + 60 <= now_secs,
    ensures
        match json_of_text(content@) {
            Some(snapshot) => r is Ok && r->Ok_0@ == json_pretty_text(
                with_token_times(snapshot, (now_secs - 60) as i64),
            ).push('\n'),
            None => r is Err,
        },
{
    match parse(content) {
        Some(snapshot) => {
            let time: i64 = now_secs - 60;
            let snapshot = set_token_time(snapshot, "access_token", time);
            let snapshot = set_token_time(snapshot, "id_token", time);
            let mut out = snapshot.render_pretty();
            out.push('\n');
            Ok(out)
        },
        None => Err(UnreadableSnapshot),
    }
}

/// Ending the tokens touches nothing else: the refresh token and every other member stand.
pub proof fn ending_tokens_keeps_all_else(snapshot: JsonTree, time: i64, key: Seq<char>)
    requires
        key != "tokens"@,
    ensures
        with_token_times(snapshot, time).get(key) == snapshot.get(key),
        token_of(with_token_times(snapshot, time), "refresh_token"@) == token_of(
            snapshot,
            "refresh_token"@,
        ),
{
    reveal_strlit("access_token");
    reveal_strlit("id_token");
    reveal_strlit("refresh_token");
    assert("access_token"@.len() == 12);
    assert("id_token"@.len() == 8);
    assert("refresh_token"@.len() == 13);
    let first = with_token_time(snapshot, "access_token"@, time);
    assert(first.get(key) == snapshot.get(key));
    assert(token_of(first, "refresh_token"@) == token_of(snapshot, "refresh_token"@));
}

// ---------------------------------------------------------------------------
// Texts
// ---------------------------------------------------------------------------

/// A character as it stands in a basic string of TOML.
pub open spec fn toml_escaped_char(c: char) -> Seq<char> {
    if c == '\\' {
        seq!['\\', '\\']
    } else if c == '"' {
        seq!['\\', '"']
    } else {
        seq![c]
    }
}

/// A text as it stands in a basic string of TOML.
pub open spec fn toml_escaped(s: Seq<char>) -> Seq<char>
    decreases s.len(),
{
    if s.len() == 0 {
        Seq::empty()
    } else {
        toml_escaped(s.drop_last()) + toml_escaped_char(s.last())
    }
}

/// A text as it stands in a basic string of TOML.
pub fn toml_escape(value: &str) -> (r: String)
    ensures
        r@ == toml_escaped(value@),
{
    let chars = chars_of(value);
    let mut out = String::new();
    let mut i: usize = 0;
    proof {
        assert(out@ =~= toml_escaped(chars@.take(0)));
    }
    while i < chars.len()
        invariant
            chars@ == value@,
            i <= chars@.len(),
            out@ == toml_escaped(chars@.take(i as int)),
        decreases chars@.len() - i,
    {
        let c = chars[i];
        let ghost before = out@;
        if c == '\\' {
            out.push('\\');
            out.push('\\');
        } else if c == '"' {
            out.push('\\');
            out.push('"');
        } else {
            out.push(c);
        }
        proof {
            assert(chars@.take(i + 1).drop_last() =~= chars@.take(i as int));
            assert(chars@.take(i + 1).last() == c);
            assert(out@ =~= before + toml_escaped_char(c));
        }
        i += 1;
    }
    proof {
        assert(chars@.take(chars@.len() as int) =~= chars@);
    }
    out
}

/// A configuration that names the native provider and a model.
pub open spec fn minimal_config(model: Seq<char>) -> Seq<char> {
    "model_provider = \"openai\"\nmodel = \""@ + toml_escaped(
        if trimmed(model, CharClass::Space).len() == 0 {
            "gpt-5.5"@
        } else {
            model
        },
    ) + "\"\n"@
}

/// The configuration under which an outside refresh runs.
pub fn write_minimal_config(model: &str) -> (r: String)
    ensures
        r@ == minimal_config(model@),
{
    let mut out = "model_provider = \"openai\"\nmodel = \"".to_owned();
    if trim(model, CharClass::Space).as_str().is_empty() {
        out.push_str(toml_escape("gpt-5.5").as_str());
    } else {
        out.push_str(toml_escape(model).as_str());
    }
    out.push_str("\"\n");
    out
}

/// What `String::from_utf8_lossy` makes of bytes.
pub uninterp spec fn lossy_text(bytes: Seq<u8>) -> Seq<char>;

/// `String::from_utf8_lossy`: a function of the bytes, which is the text that they encode where
/// they encode one.
#[verifier::external_body]
fn decode_lossy(bytes: &[u8]) -> (r: String)
    ensures
        r@ == lossy_text(bytes@),
        valid_utf8(bytes@) ==> r@ == decode_utf8(bytes@),
{
    String::from_utf8_lossy(bytes).into_owned()
}

/// A word, or a mark in its place where it is long enough to be a secret.
pub open spec fn redacted_word(word: Seq<char>) -> Seq<char> {
    if utf8_len(word) >= 30 {
        "<redacted>"@
    } else {
        word
    }
}

/// A line with its long words redacted, and one space between words.
pub open spec fn redacted_line(line: Seq<char>) -> Seq<char> {
    joined(words_of(line).map_values(|word: Seq<char>| redacted_word(word)), " "@)
}

/// The first lines of a text with their long words redacted.
pub open spec fn redacted_text(text: Seq<char>) -> Seq<char> {
    let shown = if lines_of(text).len() <= 5 {
        lines_of(text)
    } else {
        lines_of(text).take(5)
    };
    joined(shown.map_values(|line: Seq<char>| redacted_line(line)), "; "@)
}

/// A line with its long words redacted.
pub fn redact_line(line: &str) -> (r: String)
    ensures
        r@ == redacted_line(line@),
{
    let found = words(line);
    let mut shown: Vec<String> = Vec::new();
    let mut i: usize = 0;
    while i < found.len()
        invariant
            i <= found@.len(),
            shown@.len() == i,
            forall|j: int| 0 <= j < i ==> (#[trigger] shown@[j])@ == redacted_word(found@[j]@),
        decreases found@.len() - i,
    {
        if byte_len(found[i].as_str()) >= 30 {
            shown.push("<redacted>".to_owned());
        } else {
            shown.push(found[i].clone());
        }
        i += 1;
    }
    proof {
        assert(views(shown@) =~= views(found@).map_values(|word: Seq<char>| redacted_word(word)));
    }
    join(&shown, " ")
}

/// A redacted line holds no long word, and redacting it again changes nothing.
pub proof fn redacted_lines_hold_no_long_word(line: Seq<char>)
    ensures
        forall|i: int|
            0 <= i < words_of(redacted_line(line)).len() ==> utf8_len(
                #[trigger] words_of(redacted_line(line))[i],
            ) < 30,
        redacted_line(redacted_line(line)) == redacted_line(line),
{
    let redact = |word: Seq<char>| redacted_word(word);
    let shown = words_of(line).map_values(redact);
    reveal_strlit("<redacted>");
    reveal_strlit(" ");
    assert(" "@ =~= seq![' ']);
    assert(utf8_len("<redacted>"@) < 30) by {
        is_ascii_chars_encode_utf8("<redacted>"@);
    }
    lemma_words(line);
    assert forall|i: int| 0 <= i < shown.len() implies is_word(#[trigger] shown[i]) by {
        assert(is_word(words_of(line)[i]));
        assert(shown[i] == redacted_word(words_of(line)[i]));
    }
    joined_words_read_back(shown);
    assert forall|i: int| 0 <= i < shown.len() implies utf8_len(#[trigger] shown[i]) < 30 by {
        assert(shown[i] == redacted_word(words_of(line)[i]));
    }
    assert(shown.map_values(redact) =~= shown);
}

/// The first lines of a text with their long words redacted.
pub fn redact_text(text: &str) -> (r: String)
    ensures
        r@ == redacted_text(text@),
{
    let found = lines(text);
    let mut shown: Vec<String> = Vec::new();
    let mut i: usize = 0;
    while i < found.len() && i < 5
        invariant
            i <= found@.len(),
            i <= 5,
            shown@.len() == i,
            forall|j: int| 0 <= j < i ==> (#[trigger] shown@[j])@ == redacted_line(found@[j]@),
        decreases found@.len() - i,
    {
        shown.push(redact_line(found[i].as_str()));
        i += 1;
    }
    proof {
        let all = lines_of(text@);
        assert(all.len() == found@.len());
        let kept = if all.len() <= 5 {
            all
        } else {
            all.take(5)
        };
        assert(views(shown@) =~= kept.map_values(|line: Seq<char>| redacted_line(line)));
    }
    join(&shown, "; ")
}

/// The first lines that a command printed, with their long words redacted.
pub fn redact_output(bytes: &[u8]) -> (r: String)
    ensures
        r@ == redacted_text(lossy_text(bytes@)),
        valid_utf8(bytes@) ==> r@ == redacted_text(decode_utf8(bytes@)),
{
    let text = decode_lossy(bytes);
    redact_text(text.as_str())
}

/// Why a refresh gave no fresher tokens: how the command ended, and what it printed.
pub open spec fn refresh_failure(exit_code: Option<int>, printed: Seq<char>) -> Seq<char> {
    let status = match exit_code {
        Some(code) => "exit "@ + signed_decimal(code),
        None => "terminated by signal"@,
    };
    let told = "Codex did not produce fresher tokens ("@ + status + ")"@;
    if printed.len() == 0 {
        told
    } else {
        told + ": "@ + printed
    }
}

/// Why a refresh gave no fresher tokens.
pub fn refresh_failure_text(exit_code: Option<i32>, printed: &str) -> (r: String)
    ensures
        r@ == refresh_failure(
            match exit_code {
                Some(code) => Some(code as int),
                None => None,
            },
            printed@,
        ),
{
    let mut out = "Codex did not produce fresher tokens (".to_owned();
    let status = match exit_code {
        Some(code) => with_number("exit ", code as i64, ""),
        None => "terminated by signal".to_owned(),
    };
    out.push_str(status.as_str());
    proof {
        reveal_strlit("");
        if exit_code is Some {
            assert(status@ =~= "exit "@ + signed_decimal(exit_code->0 as int));
        }
    }
    out.push_str(")");
    if !printed.is_empty() {
        out.push_str(": ");
        out.push_str(printed);
    }
    out
}

// ---------------------------------------------------------------------------
// Refreshing all snapshots
// ---------------------------------------------------------------------------

/// The profiles to refresh: the one that was asked for, or all.
pub fn refresh_targets(options: &AuthRefreshOptions, profiles: &Vec<String>) -> (r: Vec<String>)
    ensures
        views(r@) == (match options.profile_name {
            Some(name) => seq![name@],
            None => views(profiles@),
        }),
{
    match &options.profile_name {
        Some(name) => {
            let mut out: Vec<String> = Vec::new();
            out.push(name.clone());
            proof {
                assert(views(out@) =~= seq![name@]);
            }
            out
        },
        None => copy_list(profiles),
    }
}

/// What became of a snapshot.
#[derive(Debug, Clone, Copy, PartialEq, Eq, Structural)]
pub enum SnapshotOutcome {
    Missing,
    NonChatGpt,
    Stale,
    Fresh,
    WouldRefresh,
    Refreshed,
    Failed,
}

/// What became of a snapshot: `decided` is `None` where it could not be read, and
/// `refreshed` tells whether the refresh, if one was run, took place.
pub open spec fn outcome_of(decided: Option<Decision>, dry_run: bool, refreshed: bool) -> SnapshotOutcome {
    match decided {
        None => SnapshotOutcome::Failed,
        Some(Decision::MissingSnapshot(_)) => SnapshotOutcome::Missing,
        Some(Decision::SkipNonChatGpt(_)) => SnapshotOutcome::NonChatGpt,
        Some(Decision::SkipStale(_)) => SnapshotOutcome::Stale,
        Some(Decision::Fresh(_)) => SnapshotOutcome::Fresh,
        Some(Decision::Refresh(_)) => if dry_run {
            SnapshotOutcome::WouldRefresh
        } else if refreshed {
            SnapshotOutcome::Refreshed
        } else {
            SnapshotOutcome::Failed
        },
    }
}

/// Whether a refresh has to be run: one was decided, and this is no dry run.
pub fn runs_refresh(decided: &RefreshDecision, dry_run: bool) -> (r: bool)
    ensures
        r == (decided@ is Refresh && !dry_run),
{
    match decided {
        RefreshDecision::Refresh(_) => !dry_run,
        _ => false,
    }
}

/// What became of a snapshot.
pub fn snapshot_outcome(decided: &Option<RefreshDecision>, dry_run: bool, refreshed: bool) -> (r:
    SnapshotOutcome)
    ensures
        r == outcome_of(
            match decided {
                Some(d) => Some(d@),
                None => None,
            },
            dry_run,
            refreshed,
        ),
{
    match decided {
        None => SnapshotOutcome::Failed,
        Some(RefreshDecision::MissingSnapshot(_)) => SnapshotOutcome::Missing,
        Some(RefreshDecision::SkipNonChatGpt(_)) => SnapshotOutcome::NonChatGpt,
        Some(RefreshDecision::SkipStale(_)) => SnapshotOutcome::Stale,
        Some(RefreshDecision::Fresh(_)) => SnapshotOutcome::Fresh,
        Some(RefreshDecision::Refresh(_)) => {
            if dry_run {
                SnapshotOutcome::WouldRefresh
            } else if refreshed {
                SnapshotOutcome::Refreshed
            } else {
                SnapshotOutcome::Failed
            }
        },
    }
}

impl SnapshotOutcome {
    /// The word for the outcome.
    pub open spec fn word(self) -> Seq<char> {
        match self {
            SnapshotOutcome::Missing => "missing"@,
            SnapshotOutcome::NonChatGpt => "skip"@,
            SnapshotOutcome::Stale => "stale"@,
            SnapshotOutcome::Fresh => "fresh"@,
            SnapshotOutcome::WouldRefresh => "would refresh"@,
            SnapshotOutcome::Refreshed => "refreshed"@,
            SnapshotOutcome::Failed => "failed"@,
        }
    }

    /// The word for the outcome.
    pub fn as_text(&self) -> (r: String)
        ensures
            r@ == self.word(),
    {
        match self {
            SnapshotOutcome::Missing => "missing".to_owned(),
            SnapshotOutcome::NonChatGpt => "skip".to_owned(),
            SnapshotOutcome::Stale => "stale".to_owned(),
            SnapshotOutcome::Fresh => "fresh".to_owned(),
            SnapshotOutcome::WouldRefresh => "would refresh".to_owned(),
            SnapshotOutcome::Refreshed => "refreshed".to_owned(),
            SnapshotOutcome::Failed => "failed".to_owned(),
        }
    }
}

/// The line that reports on one profile.
pub fn profile_line(name: &str, status: &str, detail: &str) -> (r: String)
    ensures
        r@ == "  "@ + padded(status@, 13) + " "@ + name@ + ": "@ + detail@,
{
    let mut out = "  ".to_owned();
    out.push_str(pad(status, 13).as_str());
    out.push_str(" ");
    out.push_str(name);
    out.push_str(": ");
    out.push_str(detail);
    out
}

/// Whether a snapshot came out one way.
pub open spec fn is_outcome(outcome: SnapshotOutcome, wanted: SnapshotOutcome) -> bool {
    outcome == wanted
}

/// How many snapshots came out one way.
pub open spec fn outcome_count(outcomes: Seq<SnapshotOutcome>, wanted: SnapshotOutcome) -> nat {
    outcomes.filter(|o: SnapshotOutcome| is_outcome(o, wanted)).len()
}

fn count_outcomes(outcomes: &Vec<SnapshotOutcome>, wanted: SnapshotOutcome) -> (r: usize)
    ensures
        r == outcome_count(outcomes@, wanted),
{
    let ghost pred = |o: SnapshotOutcome| is_outcome(o, wanted);
    let mut count: usize = 0;
    let mut i: usize = 0;
    proof {
        lemma_no_items(outcomes@);
    }
    while i < outcomes.len()
        invariant
            i <= outcomes@.len(),
            pred == (|o: SnapshotOutcome| is_outcome(o, wanted)),
            count <= i,
            count == outcomes@.take(i as int).filter(pred).len(),
        decreases outcomes@.len() - i,
    {
        proof {
            lemma_filter_step(outcomes@, i as int, pred);
        }
        if outcomes[i] == wanted {
            count += 1;
        }
        i += 1;
    }
    proof {
        lemma_no_items(outcomes@);
    }
    count
}

/// Sums up a refresh from what became of each snapshot.
pub fn refresh_auth_snapshots(outcomes: &Vec<SnapshotOutcome>) -> (r: AuthRefreshSummary)
    ensures
        r.scanned == outcomes@.len(),
        r.refreshed == outcome_count(outcomes@, SnapshotOutcome::Refreshed),
        r.fresh == outcome_count(outcomes@, SnapshotOutcome::Fresh),
        r.would_refresh == outcome_count(outcomes@, SnapshotOutcome::WouldRefresh),
        r.skipped_non_chatgpt == outcome_count(outcomes@, SnapshotOutcome::NonChatGpt),
        r.skipped_stale == outcome_count(outcomes@, SnapshotOutcome::Stale),
        r.missing_snapshot == outcome_count(outcomes@, SnapshotOutcome::Missing),
        r.failed == outcome_count(outcomes@, SnapshotOutcome::Failed),
{
    AuthRefreshSummary {
        scanned: outcomes.len(),
        refreshed: count_outcomes(outcomes, SnapshotOutcome::Refreshed),
        fresh: count_outcomes(outcomes, SnapshotOutcome::Fresh),
        would_refresh: count_outcomes(outcomes, SnapshotOutcome::WouldRefresh),
        skipped_non_chatgpt: count_outcomes(outcomes, SnapshotOutcome::NonChatGpt),
        skipped_stale: count_outcomes(outcomes, SnapshotOutcome::Stale),
        missing_snapshot: count_outcomes(outcomes, SnapshotOutcome::Missing),
        failed: count_outcomes(outcomes, SnapshotOutcome::Failed),
    }
}

/// The summary in words.
pub open spec fn summary_words(s: AuthRefreshSummary) -> Seq<char> {
    let told = "Auth refresh: "@ + decimal(s.scanned as nat) + " scanned, "@ + decimal(
        s.refreshed as nat,
    ) + " refreshed, "@ + decimal(s.fresh as nat) + " fresh, "@ + decimal(s.skipped_stale as nat)
        + " stale skipped, "@ + decimal(s.skipped_non_chatgpt as nat) + " non-ChatGPT skipped, "@
        + decimal(s.missing_snapshot as nat) + " missing, "@ + decimal(s.failed as nat)
        + " failed"@;
    if s.would_refresh > 0 {
        told + ", "@ + decimal(s.would_refresh as nat) + " would refresh"@
    } else {
        told
    }
}

/// The summary in words.
pub fn print_summary(summary: &AuthRefreshSummary) -> (r: String)
    ensures
        r@ == summary_words(*summary),
{
    let mut out = "Auth refresh: ".to_owned();
    out.push_str(decimal_text(summary.scanned as u64).as_str());
    out.push_str(" scanned, ");
    out.push_str(decimal_text(summary.refreshed as u64).as_str());
    out.push_str(" refreshed, ");
    out.push_str(decimal_text(summary.fresh as u64).as_str());
    out.push_str(" fresh, ");
    out.push_str(decimal_text(summary.skipped_stale as u64).as_str());
    out.push_str(" stale skipped, ");
    out.push_str(decimal_text(summary.skipped_non_chatgpt as u64).as_str());
    out.push_str(" non-ChatGPT skipped, ");
    out.push_str(decimal_text(summary.missing_snapshot as u64).as_str());
    out.push_str(" missing, ");
    out.push_str(decimal_text(summary.failed as u64).as_str());
    out.push_str(" failed");
    if summary.would_refresh > 0 {
        out.push_str(", ");
        out.push_str(decimal_text(summary.would_refresh as u64).as_str());
        out.push_str(" would refresh");
    }
    out
}

} // verus!
