//! What holds of logins and their refresh, said of the members of a login, the parts of a
//! token and the seconds of a moment themselves.
use vstd::prelude::*;
use vstd::utf8::*;

use crate::auth::{
    auth_members, is_chatgpt_login, is_shared, profiles_with, snapshot_place, StoredLogin,
};
use crate::auth_refresh::{
    decision_of, is_fresher, minimal_config, outcome_count, outcome_of, redacted_line,
    redacted_text, toml_escaped, with_token_times, Decision, SnapshotOutcome,
};
use crate::json::{json_of_text, json_text, number_of, number_signed, JsonTree};
use crate::lists::{lemma_filter_map_step, lemma_filter_step};
use crate::moments::{nanos_between, rfc3339_moment, Moment};
use crate::oauth::{is_next_name, login_refusal, login_summary, profile_name_of, LoginError};
use crate::sessions::Members;
use crate::text::{
    decimal, joined, joined_pieces_read_back, joined_words_read_back, lines_of, utf8_len, words_of,
};
use crate::text_laws::{is_blank_text, outer_white_space_is_trimmed};
use crate::tokens::{base64_decoded, base64_encoded, token_claim, token_payload, token_with_claim};

verus! {

// ---------------------------------------------------------------------------
// What a login says
// ---------------------------------------------------------------------------

/// Whether the login says that it was last refreshed at a moment.
pub open spec fn says_refreshed(login: Members, secs: i64, nanos: u32) -> bool {
    &&& login.contains_key("last_refresh"@)
    &&& login["last_refresh"@] is Text
    &&& rfc3339_moment(login["last_refresh"@]->Text_0) == Some((secs, nanos))
}

/// Whether the login says nothing of its last refresh.
pub open spec fn says_no_refresh(login: Members) -> bool {
    login.contains_key("last_refresh"@) && login["last_refresh"@] is Text ==> rfc3339_moment(
        login["last_refresh"@]->Text_0,
    ) is None
}

/// Whether the login holds a token.
pub open spec fn holds_token(login: Members, name: Seq<char>, token: Seq<char>) -> bool {
    &&& login.contains_key("tokens"@)
    &&& login["tokens"@] is Object
    &&& login["tokens"@]->Object_0.contains_key(name)
    &&& login["tokens"@]->Object_0[name] == JsonTree::Text(token)
}

/// Whether the login says that its access token ends at a second.
pub open spec fn says_end(login: Members, secs: i64) -> bool {
    &&& exists|token: Seq<char>| #[trigger]
        holds_token(login, "access_token"@, token) && token_claim(token, "exp"@) == Some(secs)
    &&& -8334601228800 <= secs <= 8210266876799
}

/// Whether the login says nothing of the end of its access token.
pub open spec fn says_no_end(login: Members) -> bool {
    forall|token: Seq<char>| #[trigger]
        holds_token(login, "access_token"@, token) ==> token_claim(token, "exp"@) is None
}

/// Whether the login is one of a ChatGPT account.
pub open spec fn says_chatgpt(login: Members) -> bool {
    login.contains_key("auth_mode"@) && login["auth_mode"@] == JsonTree::Text("chatgpt"@)
}

/// Whether the login holds what a refresh needs.
pub open spec fn is_refreshable(login: Members) -> bool {
    exists|token: Seq<char>| #[trigger]
        holds_token(login, "refresh_token"@, token) && token.len() > 0
}

proof fn lemma_one_token(login: Members, name: Seq<char>, token: Seq<char>)
    requires
        holds_token(login, name, token),
    ensures
        crate::auth_refresh::token_of(JsonTree::Object(login), name) == Some(token),
{
}

/// The second that a token claims is read from the middle one of its three parts.
pub proof fn a_claim_is_read_from_the_payload(
    head: Seq<char>,
    payload: Seq<char>,
    tail: Seq<char>,
    bytes: Seq<u8>,
    claims: Members,
    claim: Seq<char>,
    number: serde_json::Number,
)
    requires
        !head.contains('.'),
        !payload.contains('.'),
        !tail.contains('.'),
        base64_decoded(payload) == Some(bytes),
        valid_utf8(bytes),
        json_of_text(decode_utf8(bytes)) == Some(JsonTree::Object(claims)),
        claims.contains_key(claim),
        claims[claim] == JsonTree::Number(number),
    ensures
        ({
            let token = head + seq!['.'] + payload + seq!['.'] + tail;
            &&& token_payload(token) == Ok::<JsonTree, crate::tokens::TokenError>(
                JsonTree::Object(claims),
            )
            &&& token_claim(token, claim) == number_signed(number)
        }),
{
    let parts = seq![head, payload, tail];
    lemma_three_parts(head, payload, tail);
    assert forall|i: int| 0 <= i < 3 implies !(#[trigger] parts[i]).contains('.') by {}
    joined_pieces_read_back(parts, '.');
}

proof fn lemma_three_parts(a: Seq<char>, b: Seq<char>, c: Seq<char>)
    ensures
        joined(seq![a, b, c], seq!['.']) == a + seq!['.'] + b + seq!['.'] + c,
{
    reveal_with_fuel(joined, 4);
    let three = seq![a, b, c];
    assert(three.drop_last() =~= seq![a, b]);
    assert(seq![a, b].drop_last() =~= seq![a]);
    assert(three.last() == c);
    assert(seq![a, b].last() == b);
    assert(joined(three, seq!['.']) =~= a + seq!['.'] + b + seq!['.'] + c);
}

/// A token whose time is set keeps its first and its last part, and all claims but that one.
pub proof fn setting_a_time_keeps_the_other_parts(
    head: Seq<char>,
    payload: Seq<char>,
    tail: Seq<char>,
    bytes: Seq<u8>,
    claims: Members,
    claim: Seq<char>,
    time: i64,
)
    requires
        !head.contains('.'),
        !payload.contains('.'),
        !tail.contains('.'),
        base64_decoded(payload) == Some(bytes),
        valid_utf8(bytes),
        json_of_text(decode_utf8(bytes)) == Some(JsonTree::Object(claims)),
    ensures
        token_with_claim(head + seq!['.'] + payload + seq!['.'] + tail, claim, time) == Ok::<
            Seq<char>,
            crate::tokens::TokenError,
        >(
            head + seq!['.'] + base64_encoded(
                encode_utf8(
                    json_text(
                        JsonTree::Object(
                            claims.insert(claim, JsonTree::Number(number_of(time))),
                        ),
                    ),
                ),
            ) + seq!['.'] + tail,
        ),
{
    let parts = seq![head, payload, tail];
    lemma_three_parts(head, payload, tail);
    assert forall|i: int| 0 <= i < 3 implies !(#[trigger] parts[i]).contains('.') by {}
    joined_pieces_read_back(parts, '.');
    let made = base64_encoded(
        encode_utf8(
            json_text(
                JsonTree::Object(claims.insert(claim, JsonTree::Number(number_of(time)))),
            ),
        ),
    );
    lemma_three_parts(head, made, tail);
}

// ---------------------------------------------------------------------------
// Whether a refresh took place
// ---------------------------------------------------------------------------

/// A login that says it was refreshed later is fresher, whatever its tokens claim.
pub proof fn a_later_refresh_is_fresher(
    before: Members,
    after: Members,
    old_secs: i64,
    old_nanos: u32,
    new_secs: i64,
    new_nanos: u32,
)
    requires
        says_refreshed(before, old_secs, old_nanos),
        says_refreshed(after, new_secs, new_nanos),
        new_secs > old_secs || (new_secs == old_secs && new_nanos > old_nanos),
    ensures
        is_fresher(JsonTree::Object(before), JsonTree::Object(after)),
{
}

/// A login whose access token ends later is fresher, whatever it says of its last refresh.
pub proof fn a_later_end_is_fresher(before: Members, after: Members, old_end: i64, new_end: i64)
    requires
        says_end(before, old_end),
        says_end(after, new_end),
        new_end > old_end,
    ensures
        is_fresher(JsonTree::Object(before), JsonTree::Object(after)),
{
    let old_token = choose|token: Seq<char>| #[trigger]
        holds_token(before, "access_token"@, token) && token_claim(token, "exp"@) == Some(old_end);
    let new_token = choose|token: Seq<char>| #[trigger]
        holds_token(after, "access_token"@, token) && token_claim(token, "exp"@) == Some(new_end);
    lemma_one_token(before, "access_token"@, old_token);
    lemma_one_token(after, "access_token"@, new_token);
}

/// A login that was not refreshed later and whose access token does not end later is not
/// fresher.
pub proof fn nothing_later_is_not_fresher(
    before: Members,
    after: Members,
    old_secs: i64,
    old_nanos: u32,
    new_secs: i64,
    new_nanos: u32,
    old_end: i64,
    new_end: i64,
)
    requires
        says_no_refresh(before) || says_no_refresh(after) || (says_refreshed(
            before,
            old_secs,
            old_nanos,
        ) && says_refreshed(after, new_secs, new_nanos) && (new_secs < old_secs || (new_secs
            == old_secs && new_nanos <= old_nanos))),
        says_no_end(before) || says_no_end(after) || (says_end(before, old_end) && says_end(
            after,
            new_end,
        ) && new_end <= old_end),
    ensures
        !is_fresher(JsonTree::Object(before), JsonTree::Object(after)),
{
    lemma_end(before, old_end);
    lemma_end(after, new_end);
}

proof fn lemma_end(login: Members, end: i64)
    ensures
        says_end(login, end) ==> crate::auth_refresh::access_end_of(JsonTree::Object(login)) == Some(
            Moment { secs: end, nanos: 0 },
        ),
        says_no_end(login) ==> crate::auth_refresh::access_end_of(JsonTree::Object(login)) is None,
{
    if says_end(login, end) {
        let token = choose|token: Seq<char>| #[trigger]
            holds_token(login, "access_token"@, token) && token_claim(token, "exp"@) == Some(end);
        lemma_one_token(login, "access_token"@, token);
    }
    if says_no_end(login) {
        match crate::auth_refresh::token_of(JsonTree::Object(login), "access_token"@) {
            Some(token) => {
                assert(holds_token(login, "access_token"@, token));
            },
            None => {},
        }
    }
}

// ---------------------------------------------------------------------------
// Whether to refresh
// ---------------------------------------------------------------------------

/// The nanoseconds from an ordinary second to another moment.
pub open spec fn age_of(secs: i64, nanos: u32, now: Moment) -> int {
    (now.secs - secs) * 1000000000 + now.nanos - nanos
}

proof fn lemma_age(secs: i64, nanos: u32, now: Moment)
    requires
        nanos < 1000000000,
        now.nanos < 1000000000,
    ensures
        nanos_between(Moment { secs, nanos }, now) == age_of(secs, nanos, now),
{
}

proof fn lemma_refreshable(login: Members)
    ensures
        crate::auth_refresh::has_refresh_token(JsonTree::Object(login)) <==> is_refreshable(login),
        crate::auth_refresh::is_chatgpt(JsonTree::Object(login)) <==> says_chatgpt(login),
{
    if is_refreshable(login) {
        let token = choose|token: Seq<char>| #[trigger]
            holds_token(login, "refresh_token"@, token) && token.len() > 0;
        lemma_one_token(login, "refresh_token"@, token);
    }
    match crate::auth_refresh::token_of(JsonTree::Object(login), "refresh_token"@) {
        Some(token) => {
            assert(holds_token(login, "refresh_token"@, token));
        },
        None => {},
    }
}

/// Only a ChatGPT login with a refresh token is refreshed, even where a refresh is forced; and
/// where one is forced, every such login is.
pub proof fn only_refreshable_logins_are_refreshed(
    login: Members,
    hours: int,
    days: int,
    now: Moment,
)
    ensures
        !says_chatgpt(login) || !is_refreshable(login) ==> forall|force: bool| #[trigger]
            decision_of(JsonTree::Object(login), force, hours, days, now) is SkipNonChatGpt,
        says_chatgpt(login) && is_refreshable(login) ==> decision_of(
            JsonTree::Object(login),
            true,
            hours,
            days,
            now,
        ) is Refresh,
        says_chatgpt(login) && is_refreshable(login) ==> !(decision_of(
            JsonTree::Object(login),
            false,
            hours,
            days,
            now,
        ) is SkipNonChatGpt),
{
    lemma_refreshable(login);
}

/// A login that was refreshed more than the given days ago is historical, one that was
/// refreshed at least the given hours ago is due, and a more recent one is due only where its
/// access token ends within three days.
pub proof fn the_age_of_a_login_decides(
    login: Members,
    secs: i64,
    nanos: u32,
    end: i64,
    hours: int,
    days: int,
    now: Moment,
)
    requires
        says_chatgpt(login),
        is_refreshable(login),
        says_refreshed(login, secs, nanos),
        nanos < 1000000000,
        now.nanos < 1000000000,
        now.secs <= 8210266876799 - 259200,
    ensures
        ({
            let decided = decision_of(JsonTree::Object(login), false, hours, days, now);
            let age = age_of(secs, nanos, now);
            &&& age > days * 86400 * 1000000000 ==> decided is SkipStale
            &&& age <= days * 86400 * 1000000000 && age >= hours * 3600 * 1000000000
                ==> decided is Refresh
            &&& age <= days * 86400 * 1000000000 && age < hours * 3600 * 1000000000 && says_end(
                login,
                end,
            ) && end <= now.secs + 3 * 86400 ==> decided is Refresh
            &&& age <= days * 86400 * 1000000000 && age < hours * 3600 * 1000000000 && says_end(
                login,
                end,
            ) && end > now.secs + 3 * 86400 ==> decided is Fresh
            &&& age <= days * 86400 * 1000000000 && age < hours * 3600 * 1000000000 && says_no_end(
                login,
            ) ==> decided is Fresh
        }),
{
    lemma_refreshable(login);
    lemma_age(secs, nanos, now);
    lemma_end(login, end);
}

/// Where a login says nothing of its last refresh, the end of its access token decides; where
/// that says nothing either, the login is taken for historical.
pub proof fn the_end_of_a_token_decides(
    login: Members,
    end: i64,
    hours: int,
    days: int,
    now: Moment,
)
    requires
        says_chatgpt(login),
        is_refreshable(login),
        says_no_refresh(login),
        now.nanos < 1000000000,
        now.secs <= 8210266876799 - 259200,
    ensures
        ({
            let decided = decision_of(JsonTree::Object(login), false, hours, days, now);
            let age = age_of(end, 0, now);
            &&& says_no_end(login) ==> decided is SkipStale
            &&& says_end(login, end) && age > days * 86400 * 1000000000 ==> decided is SkipStale
            &&& says_end(login, end) && age <= days * 86400 * 1000000000 && end <= now.secs + 3
                * 86400 ==> decided is Refresh
            &&& says_end(login, end) && age <= days * 86400 * 1000000000 && end > now.secs + 3
                * 86400 ==> decided == Decision::Fresh(
                "snapshot is recent and token is not near expiry"@,
            )
        }),
{
    lemma_refreshable(login);
    lemma_age(end, 0, now);
    lemma_end(login, end);
}

/// A snapshot is counted as refreshed exactly where a refresh was decided, run and successful;
/// a dry run refreshes none; and what was skipped or could not be read is told as that.
pub proof fn outcomes_follow_the_decision(
    reason: Seq<char>,
    decided: Option<Decision>,
    dry_run: bool,
    refreshed: bool,
)
    ensures
        outcome_of(decided, dry_run, refreshed) is Refreshed <==> decided is Some
            && decided->0 is Refresh && !dry_run && refreshed,
        outcome_of(decided, dry_run, refreshed) is WouldRefresh <==> decided is Some
            && decided->0 is Refresh && dry_run,
        outcome_of(decided, dry_run, refreshed) is Failed <==> decided is None || (decided->0
            is Refresh && !dry_run && !refreshed),
        outcome_of(Some(Decision::Fresh(reason)), dry_run, refreshed) is Fresh,
        outcome_of(Some(Decision::SkipStale(reason)), dry_run, refreshed) is Stale,
        outcome_of(Some(Decision::SkipNonChatGpt(reason)), dry_run, refreshed) is NonChatGpt,
        outcome_of(Some(Decision::MissingSnapshot(reason)), dry_run, refreshed) is Missing,
{
}

/// Each outcome is counted once, among its own kind.
pub proof fn outcomes_are_counted(
    outcomes: Seq<SnapshotOutcome>,
    outcome: SnapshotOutcome,
    wanted: SnapshotOutcome,
)
    ensures
        outcome_count(outcomes.push(outcome), wanted) == outcome_count(outcomes, wanted) + if outcome
            == wanted {
            1nat
        } else {
            0nat
        },
        outcome_count(Seq::empty(), wanted) == 0,
{
    let pred = |o: SnapshotOutcome| crate::auth_refresh::is_outcome(o, wanted);
    let all = outcomes.push(outcome);
    lemma_filter_step(all, outcomes.len() as int, pred);
    assert(all.take(outcomes.len() as int) =~= outcomes);
    assert(all.take(all.len() as int) =~= all);
    reveal_with_fuel(Seq::filter, 1);
}

// ---------------------------------------------------------------------------
// Ending tokens
// ---------------------------------------------------------------------------

/// Whether the tokens of a login are those of another one, but for the time of one of them.
pub open spec fn has_time_set(
    before: Members,
    after: Members,
    name: Seq<char>,
    time: i64,
) -> bool {
    match token_with_claim(before[name]->Text_0, "exp"@, time) {
        Ok(made) => after[name] == JsonTree::Text(made),
        Err(_) => after[name] == before[name],
    }
}

/// Ending the tokens of a login sets the end of its access token and of its id token, each
/// where it can be set, and touches no other member.
pub proof fn both_tokens_are_ended(login: Members, tokens: Members, time: i64)
    requires
        login.contains_key("tokens"@),
        login["tokens"@] == JsonTree::Object(tokens),
    ensures
        ({
            let made = with_token_times(JsonTree::Object(login), time);
            let after = made->Object_0["tokens"@]->Object_0;
            &&& made is Object
            &&& made->Object_0.contains_key("tokens"@)
            &&& made->Object_0["tokens"@] is Object
            &&& made->Object_0.dom() == login.dom()
            &&& after.dom() == tokens.dom()
            &&& forall|key: Seq<char>|
                login.contains_key(key) && key != "tokens"@ ==> #[trigger] made->Object_0[key]
                    == login[key]
            &&& forall|key: Seq<char>|
                tokens.contains_key(key) && key != "access_token"@ && key != "id_token"@
                    ==> #[trigger] after[key] == tokens[key]
            &&& tokens.contains_key("access_token"@) && tokens["access_token"@] is Text
                ==> has_time_set(tokens, after, "access_token"@, time)
            &&& tokens.contains_key("id_token"@) && tokens["id_token"@] is Text ==> has_time_set(
                tokens,
                after,
                "id_token"@,
                time,
            )
        }),
{
    reveal_strlit("access_token");
    reveal_strlit("id_token");
    assert("access_token"@.len() == 12);
    assert("id_token"@.len() == 8);
    let made = with_token_times(JsonTree::Object(login), time);
    let after = made->Object_0["tokens"@]->Object_0;
    let first = crate::auth_refresh::with_token_time(
        JsonTree::Object(login),
        "access_token"@,
        time,
    );
    assert(first is Object && first->Object_0.contains_key("tokens"@)
        && first->Object_0["tokens"@] is Object);
    let middle = first->Object_0["tokens"@]->Object_0;
    assert(middle.dom() =~= tokens.dom());
    assert(first->Object_0.dom() =~= login.dom());
    assert(after.dom() =~= tokens.dom());
    assert(made->Object_0.dom() =~= login.dom());
}

// ---------------------------------------------------------------------------
// What is shown of a failure, and the configuration of a refresh
// ---------------------------------------------------------------------------

/// A word of fewer than 30 bytes is shown, and a longer one is not.
pub proof fn long_words_are_not_shown(word: Seq<char>)
    requires
        word.len() > 0,
        forall|i: int| 0 <= i < word.len() ==> '!' <= #[trigger] word[i] <= '~',
    ensures
        utf8_len(word) < 30 ==> redacted_line(word) == word,
        utf8_len(word) >= 30 ==> redacted_line(word) == "<redacted>"@,
{
    let one = seq![word];
    reveal_strlit(" ");
    assert(" "@ =~= seq![' ']);
    reveal_with_fuel(joined, 2);
    assert(crate::text::is_word(word)) by {
        assert forall|j: int| 0 <= j < word.len() implies !crate::text::is_space(
            #[trigger] word[j],
        ) by {
            assert('!' <= word[j] <= '~');
        }
    }
    assert forall|i: int| 0 <= i < one.len() implies crate::text::is_word(#[trigger] one[i]) by {}
    joined_words_read_back(one);
    assert(joined(one, seq![' ']) =~= word);
    assert(words_of(word) == one);
    let redact = |w: Seq<char>| crate::auth_refresh::redacted_word(w);
    let shown = one.map_values(redact);
    assert(shown =~= seq![redact(word)]);
}

/// Of what a command printed, five lines are shown at most.
pub proof fn five_lines_are_shown(a: Seq<char>, b: Seq<char>)
    requires
        lines_of(a).len() >= 5,
        lines_of(b).len() >= 5,
        lines_of(a).take(5) == lines_of(b).take(5),
    ensures
        redacted_text(a) == redacted_text(b),
{
    if lines_of(a).len() == 5 {
        assert(lines_of(a).take(5) =~= lines_of(a));
    }
    if lines_of(b).len() == 5 {
        assert(lines_of(b).take(5) =~= lines_of(b));
    }
}

/// Where a command printed one line, that line is shown.
pub proof fn one_line_is_shown(text: Seq<char>, line: Seq<char>)
    requires
        lines_of(text) == seq![line],
    ensures
        redacted_text(text) == redacted_line(line),
{
    reveal_with_fuel(joined, 2);
    assert(lines_of(text).map_values(|l: Seq<char>| redacted_line(l)) =~= seq![redacted_line(line)]);
}

/// A text is escaped character by character: a quotation mark and a backslash get a backslash
/// before them, and every other character stays.
pub proof fn quotation_marks_and_backslashes_are_escaped(s: Seq<char>, c: char)
    ensures
        toml_escaped(Seq::empty()) == Seq::<char>::empty(),
        c == '"' || c == '\\' ==> toml_escaped(s.push(c)) == toml_escaped(s).push('\\').push(c),
        c != '"' && c != '\\' ==> toml_escaped(s.push(c)) == toml_escaped(s).push(c),
{
    assert(s.push(c).drop_last() =~= s);
    assert(toml_escaped(s) + seq!['\\', c] =~= toml_escaped(s).push('\\').push(c));
    assert(toml_escaped(s) + seq![c] =~= toml_escaped(s).push(c));
}

/// A refresh runs with the native provider, and with the model of the profile unless that is
/// blank.
pub proof fn a_refresh_runs_with_the_model_of_the_profile(model: Seq<char>)
    requires
        model.len() > 0,
    ensures
        '!' <= model[0] <= '~' && '!' <= model.last() <= '~' ==> minimal_config(model)
            == "model_provider = \"openai\"\nmodel = \""@ + toml_escaped(model) + "\"\n"@,
        is_blank_text(model) ==> minimal_config(model)
            == "model_provider = \"openai\"\nmodel = \""@ + toml_escaped("gpt-5.5"@) + "\"\n"@,
{
    let none = Seq::<char>::empty();
    if '!' <= model[0] <= '~' && '!' <= model.last() <= '~' {
        outer_white_space_is_trimmed(none, model, none);
        assert(none + model + none =~= model);
    }
    if is_blank_text(model) {
        crate::text_laws::blank_texts_are_trimmed_away(model);
    }
}

// ---------------------------------------------------------------------------
// Stored logins
// ---------------------------------------------------------------------------

/// Bytes are a ChatGPT login exactly where they encode an object that says so.
pub proof fn a_chatgpt_login_says_so(bytes: Seq<u8>, login: Members)
    requires
        valid_utf8(bytes),
        json_of_text(decode_utf8(bytes)) == Some(JsonTree::Object(login)),
    ensures
        is_chatgpt_login(bytes) <==> says_chatgpt(login),
{
}

/// What is no document is no ChatGPT login.
pub proof fn no_document_is_no_login(bytes: Seq<u8>)
    requires
        !valid_utf8(bytes) || json_of_text(decode_utf8(bytes)) is None,
    ensures
        !is_chatgpt_login(bytes),
{
}

/// The profiles with a content are those whose login is that content, in order.
pub proof fn profiles_are_grouped_by_content(
    logins: Seq<StoredLogin>,
    login: StoredLogin,
    content: Seq<u8>,
)
    ensures
        profiles_with(Seq::empty(), content) == Seq::<String>::empty(),
        profiles_with(logins.push(login), content) == (if login.content@ == content {
            profiles_with(logins, content).push(login.profile)
        } else {
            profiles_with(logins, content)
        }),
{
    let made = |l: StoredLogin| crate::auth::profile_with(l, content);
    let all = logins.push(login);
    lemma_filter_map_step(all, logins.len() as int, made);
    assert(all.take(logins.len() as int) =~= logins);
    assert(all.take(all.len() as int) =~= all);
    reveal_with_fuel(Seq::filter_map, 1);
}

/// A ChatGPT login is shared as soon as two profiles hold it, and no other login ever is.
pub proof fn two_profiles_share_a_login(
    logins: Seq<StoredLogin>,
    content: Seq<u8>,
    i: int,
    j: int,
)
    requires
        0 <= i < j < logins.len(),
        logins[i].content@ == content,
        logins[j].content@ == content,
    ensures
        is_shared(logins, content) <==> is_chatgpt_login(content),
{
    lemma_two_profiles(logins, content, i, j);
}

proof fn lemma_two_profiles(logins: Seq<StoredLogin>, content: Seq<u8>, i: int, j: int)
    requires
        0 <= i <= j < logins.len(),
        logins[i].content@ == content,
        logins[j].content@ == content,
    ensures
        profiles_with(logins, content).len() >= if i < j {
            2nat
        } else {
            1nat
        },
    decreases logins.len(),
{
    let fewer = logins.drop_last();
    profiles_are_grouped_by_content(fewer, logins.last(), content);
    assert(fewer.push(logins.last()) =~= logins);
    if j < logins.len() - 1 {
        lemma_two_profiles(fewer, content, i, j);
    } else if i < j {
        lemma_two_profiles(fewer, content, i, i);
    }
}

/// Simple values become the texts of a login, the last one of each name.
pub proof fn simple_values_become_texts(pairs: Seq<(String, String)>, name: String, value: String)
    ensures
        auth_members(Seq::empty()) == Members::empty(),
        auth_members(pairs.push((name, value))) == auth_members(pairs).insert(
            name@,
            JsonTree::Text(value@),
        ),
{
    assert(pairs.push((name, value)).drop_last() =~= pairs);
    assert(pairs.push((name, value)).last() == (name, value));
}

// ---------------------------------------------------------------------------
// Logging in
// ---------------------------------------------------------------------------

/// A login is saved exactly where it is a ChatGPT login with tokens and the name, if one was
/// asked for, is one.
pub proof fn only_chatgpt_logins_are_saved(text: &str, login: Members, name: Option<String>)
    requires
        json_of_text(text@) == Some(JsonTree::Object(login)),
    ensures
        login_refusal(Some(text), None) is None <==> says_chatgpt(login) && login.contains_key(
            "tokens"@,
        ) && login["tokens"@] is Object,
        login_refusal(Some(text), None) is Some ==> login_refusal(Some(text), name) == Some(
            LoginError::NoTokens,
        ),
        login_refusal(None, name) == Some(LoginError::NoLogin),
        login_refusal(Some(text), None) is None && name is Some ==> (login_refusal(Some(text), name)
            is None <==> profile_name_of(name->0@) is Ok),
{
}

/// What is no document is no login.
pub proof fn unreadable_logins_are_refused(text: &str, name: Option<String>)
    requires
        json_of_text(text@) is None,
    ensures
        login_refusal(Some(text), name) == Some(LoginError::UnreadableLogin),
{
}

/// A profile is named without the white space around the name. A name with a path separator
/// is refused, and so are the two that stand for directories, and blank ones.
pub proof fn profile_names_stay_in_their_directory(
    lead: Seq<char>,
    name: Seq<char>,
    trail: Seq<char>,
    blank: Seq<char>,
)
    requires
        is_blank_text(lead),
        is_blank_text(trail),
        is_blank_text(blank),
        name.len() > 0,
        '!' <= name[0] <= '~',
        '!' <= name.last() <= '~',
    ensures
        name.contains('/') || name.contains('\\') || name == seq!['.'] || name == seq!['.', '.']
            ==> profile_name_of(lead + name + trail) == Err::<Seq<char>, LoginError>(
            LoginError::NameWithSeparators,
        ),
        !(name.contains('/') || name.contains('\\') || name == seq!['.'] || name == seq!['.', '.'])
            ==> profile_name_of(lead + name + trail) == Ok::<Seq<char>, LoginError>(name),
        profile_name_of(blank) == Err::<Seq<char>, LoginError>(LoginError::EmptyName),
{
    reveal_strlit(".");
    reveal_strlit("..");
    assert("."@ =~= seq!['.']);
    assert(".."@ =~= seq!['.', '.']);
    outer_white_space_is_trimmed(lead, name, trail);
    crate::text_laws::blank_texts_are_trimmed_away(blank);
}

/// The next name is never taken: it is the prefix itself, or the prefix, an underscore and the
/// first number from 1 on that is free.
pub proof fn the_next_name_is_the_first_free_one(
    name: Seq<char>,
    prefix: Seq<char>,
    existing: Seq<Seq<char>>,
)
    requires
        is_next_name(name, prefix, existing),
    ensures
        !existing.contains(name),
        !existing.contains(prefix) ==> name == prefix,
        existing.contains(prefix) && !existing.contains(prefix + seq!['_', '1']) ==> name == prefix
            + seq!['_', '1'],
        existing.contains(prefix) && existing.contains(prefix + seq!['_', '1'])
            && !existing.contains(prefix + seq!['_', '2']) ==> name == prefix + seq!['_', '2'],
{
    use_numbers(prefix);
    if existing.contains(prefix) {
        let n = choose|n: nat|
            {
                &&& n >= 1
                &&& name == #[trigger] crate::oauth::numbered(prefix, n)
                &&& !existing.contains(name)
                &&& forall|m: nat|
                    1 <= m < n ==> existing.contains(#[trigger] crate::oauth::numbered(prefix, m))
            };
        assert(crate::oauth::numbered(prefix, 1) == prefix + seq!['_', '1']);
        assert(crate::oauth::numbered(prefix, 2) == prefix + seq!['_', '2']);
        if !existing.contains(prefix + seq!['_', '1']) && n > 1 {
            assert(existing.contains(crate::oauth::numbered(prefix, 1)));
        }
        if !existing.contains(prefix + seq!['_', '2']) && n > 2 {
            assert(existing.contains(crate::oauth::numbered(prefix, 2)));
        }
    }
}

proof fn use_numbers(prefix: Seq<char>)
    ensures
        crate::oauth::numbered(prefix, 1) == prefix + seq!['_', '1'],
        crate::oauth::numbered(prefix, 2) == prefix + seq!['_', '2'],
{
    reveal_with_fuel(crate::text::decimal, 1);
    assert(crate::text::digit(1) == '1');
    assert(crate::text::digit(2) == '2');
    assert(crate::oauth::numbered(prefix, 1) =~= prefix + seq!['_', '1']);
    assert(crate::oauth::numbered(prefix, 2) =~= prefix + seq!['_', '2']);
}

/// A profile shows the mode and the last refresh of its login where these are texts, a note on
/// where the login is kept, and nothing else of it.
pub proof fn a_profile_shows_no_token(login: Members, profile: Seq<char>, key: Seq<char>)
    ensures
        ({
            let shown = login_summary(JsonTree::Object(login), profile);
            &&& shown.contains_key("_note"@)
            &&& shown["_note"@] == "Full auth stored in "@ + profile
                + ".auth.json (contains tokens/complex fields)"@
            &&& shown.contains_key("auth_mode"@) <==> login.contains_key("auth_mode"@)
                && login["auth_mode"@] is Text
            &&& shown.contains_key("auth_mode"@) ==> JsonTree::Text(shown["auth_mode"@])
                == login["auth_mode"@]
            &&& shown.contains_key("last_refresh"@) <==> login.contains_key("last_refresh"@)
                && login["last_refresh"@] is Text
            &&& shown.contains_key("last_refresh"@) ==> JsonTree::Text(shown["last_refresh"@])
                == login["last_refresh"@]
            &&& key != "_note"@ && key != "auth_mode"@ && key != "last_refresh"@
                ==> !shown.contains_key(key)
        }),
{
    reveal_strlit("_note");
    reveal_strlit("auth_mode");
    reveal_strlit("last_refresh");
    assert("_note"@.len() == 5);
    assert("auth_mode"@.len() == 9);
    assert("last_refresh"@.len() == 12);
}

/// The login of a profile is kept beside its profile, in a file named after it.
pub proof fn logins_are_kept_beside_profiles(dir: Seq<char>, name: Seq<char>)
    requires
        dir.len() > 0,
        dir.last() != '/',
        name.len() > 0,
        name[0] != '/',
    ensures
        snapshot_place(dir, name) == dir + "/providers/"@ + name + ".auth.json"@,
{
    reveal_strlit("providers");
    reveal_strlit("/providers/");
    reveal_strlit(".auth.json");
    assert((name + ".auth.json"@)[0] == name[0]);
    let place = dir.push('/') + "providers"@;
    assert(crate::provider::providers_place(dir) == place);
    assert(place.last() == 's');
    assert(snapshot_place(dir, name) =~= dir + "/providers/"@ + name + ".auth.json"@);
}

/// A token of two parts has a payload too, and a text without a dot has none.
pub proof fn two_parts_are_enough(
    head: Seq<char>,
    payload: Seq<char>,
    bytes: Seq<u8>,
    tree: JsonTree,
)
    requires
        !head.contains('.'),
        !payload.contains('.'),
        base64_decoded(payload) == Some(bytes),
        valid_utf8(bytes),
        json_of_text(decode_utf8(bytes)) == Some(tree),
    ensures
        token_payload(head + seq!['.'] + payload) == Ok::<JsonTree, crate::tokens::TokenError>(tree),
        token_payload(head) is Err,
{
    let parts = seq![head, payload];
    joined_pieces_read_back(parts, '.');
    joined_pieces_read_back(seq![head], '.');
    reveal_with_fuel(joined, 3);
    assert(parts.drop_last() =~= seq![head]);
    assert(joined(parts, seq!['.']) =~= head + seq!['.'] + payload);
    assert(joined(seq![head], seq!['.']) =~= head);
}

/// A name with a number is the next one where the plain name and all smaller numbers are taken
/// and it is free itself; so is the plain name where it is free.
pub proof fn a_free_name_is_the_next_one(prefix: Seq<char>, existing: Seq<Seq<char>>, n: nat)
    requires
        n >= 1,
    ensures
        !existing.contains(prefix) ==> is_next_name(prefix, prefix, existing),
        existing.contains(prefix) && !existing.contains(prefix + seq!['_'] + decimal(n)) && (forall|
            m: nat,
        |
            1 <= m < n ==> existing.contains(prefix + seq!['_'] + #[trigger] decimal(m)))
            ==> is_next_name(prefix + seq!['_'] + decimal(n), prefix, existing),
{
    let name = prefix + seq!['_'] + decimal(n);
    assert(crate::oauth::numbered(prefix, n) =~= name);
    if existing.contains(prefix) && !existing.contains(name) && (forall|m: nat|
        1 <= m < n ==> existing.contains(prefix + seq!['_'] + #[trigger] decimal(m))) {
        assert forall|m: nat| 1 <= m < n implies existing.contains(
            #[trigger] crate::oauth::numbered(prefix, m),
        ) by {
            assert(crate::oauth::numbered(prefix, m) =~= prefix + seq!['_'] + decimal(m));
        }
    }
}

} // verus!
