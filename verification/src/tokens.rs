//! JSON web tokens: reading the payload of a token, and setting a time in it.
use vstd::prelude::*;
use vstd::utf8::*;

use base64::Engine;

use crate::json::{
    integers_only, json_of_bytes, json_of_text, json_text, lemma_alike_members, lemma_insert_reads_back, nests_at_most,
    number_of, number_signed, reads_back, JsonTree,
};
use crate::json::{parse_bytes, Json, JsonObject};
use crate::moments::{moment_at, moment_of_second, Moment};
use crate::text::{join, split_on};
use crate::text::{joined, joined_pieces_read_back, pieces_join_to_the_text, pieces_of, views};

verus! {

/// The bytes that a text stands for in URL-safe base64 without padding, as the `base64` crate
/// decodes it.
pub uninterp spec fn base64_decoded(text: Seq<char>) -> Option<Seq<u8>>;

/// The text that stands for bytes in URL-safe base64 without padding, as the `base64` crate
/// encodes them.
pub uninterp spec fn base64_encoded(bytes: Seq<u8>) -> Seq<char>;

/// Whether a character belongs to the URL-safe base64 alphabet.
pub open spec fn base64_char(c: char) -> bool {
    ('a' <= c && c <= 'z') || ('A' <= c && c <= 'Z') || ('0' <= c && c <= '9') || c == '-' || c
        == '_'
}

/// `base64::Engine::decode` of `URL_SAFE_NO_PAD`: a function of the text.
#[verifier::external_body]
fn base64_decode(text: &str) -> (r: Option<Vec<u8>>)
    ensures
        (match r {
            Some(bytes) => Some(bytes@),
            None => None,
        }) == base64_decoded(text@),
{
    base64::engine::general_purpose::URL_SAFE_NO_PAD.decode(text).ok()
}

/// `base64::Engine::encode` of `URL_SAFE_NO_PAD`: a function of the bytes, written in the
/// alphabet alone, from which `decode` gives the bytes back.
#[verifier::external_body]
fn base64_encode(bytes: &[u8]) -> (r: String)
    ensures
        r@ == base64_encoded(bytes@),
        forall|i: int| 0 <= i < r@.len() ==> base64_char(#[trigger] r@[i]),
        base64_decoded(r@) == Some(bytes@),
{
    base64::engine::general_purpose::URL_SAFE_NO_PAD.encode(bytes)
}

/// Why a token cannot be read or rewritten.
#[derive(Debug, Clone, Copy, PartialEq, Eq, Structural)]
pub enum TokenError {
    /// It does not have the parts of a token.
    NotAToken,
    /// Its payload is not base64.
    BadEncoding,
    /// Its payload is no JSON document.
    BadPayload,
    /// Its payload has no members that could be set.
    NoClaims,
}

/// The payload of a token: its second part, decoded.
pub open spec fn token_payload(token: Seq<char>) -> Result<JsonTree, TokenError> {
    let parts = pieces_of(token, '.');
    if parts.len() < 2 {
        Err(TokenError::NotAToken)
    } else {
        match base64_decoded(parts[1]) {
            None => Err(TokenError::BadEncoding),
            Some(bytes) => match json_of_bytes(bytes) {
                None => Err(TokenError::BadPayload),
                Some(tree) => Ok(tree),
            },
        }
    }
}

/// The integer that a token claims.
pub open spec fn token_claim(token: Seq<char>, claim: Seq<char>) -> Option<i64> {
    match token_payload(token) {
        Ok(payload) => match payload.get(claim) {
            Some(JsonTree::Number(n)) => number_signed(n),
            _ => None,
        },
        Err(_) => None,
    }
}

/// The members of a payload that can be set: those of an object, or none of null.
pub open spec fn claims_of(payload: JsonTree) -> Option<Map<Seq<char>, JsonTree>> {
    match payload {
        JsonTree::Object(m) => Some(m),
        JsonTree::Null => Some(Map::empty()),
        _ => None,
    }
}

/// The payload with a time set.
pub open spec fn with_claim(
    claims: Map<Seq<char>, JsonTree>,
    claim: Seq<char>,
    value: i64,
) -> JsonTree {
    JsonTree::Object(claims.insert(claim, JsonTree::Number(number_of(value))))
}

/// The token with a time set in its payload; its other parts stand as they were.
pub open spec fn token_with_claim(token: Seq<char>, claim: Seq<char>, value: i64) -> Result<
    Seq<char>,
    TokenError,
> {
    let parts = pieces_of(token, '.');
    if parts.len() != 3 {
        Err(TokenError::NotAToken)
    } else {
        match token_payload(token) {
            Err(error) => Err(error),
            Ok(payload) => match claims_of(payload) {
                None => Err(TokenError::NoClaims),
                Some(claims) => Ok(
                    joined(
                        seq![
                            parts[0],
                            base64_encoded(encode_utf8(json_text(with_claim(claims, claim, value)))),
                            parts[2],
                        ],
                        seq!['.'],
                    ),
                ),
            },
        }
    }
}

/// The payload of a token.
pub fn jwt_payload(token: &str) -> (r: Result<Json, TokenError>)
    ensures
        match r {
            Ok(payload) => token_payload(token@) == Ok::<JsonTree, TokenError>(payload@)
                && nests_at_most(payload@, 127),
            Err(error) => token_payload(token@) == Err::<JsonTree, TokenError>(error),
        },
{
    let parts = split_on(token, '.');
    if parts.len() < 2 {
        return Err(TokenError::NotAToken);
    }
    proof {
        assert(views(parts@)[1] == parts@[1]@);
    }
    let bytes = match base64_decode(parts[1].as_str()) {
        Some(bytes) => bytes,
        None => {
            return Err(TokenError::BadEncoding);
        },
    };
    match parse_bytes(bytes.as_slice()) {
        Some(payload) => Ok(payload),
        None => Err(TokenError::BadPayload),
    }
}

/// The integer that a token claims.
pub fn jwt_claim(token: &str, claim: &str) -> (r: Option<i64>)
    ensures
        r == token_claim(token@, claim@),
{
    match jwt_payload(token) {
        Ok(payload) => match payload.get(claim) {
            Some(value) => value.as_i64(),
            None => None,
        },
        Err(_) => None,
    }
}

/// Sets a time in the payload of a token. The new token claims it, where its payload can be
/// read at all; it can where the old one held integers only.
pub fn rewrite_jwt_timestamp(token: &str, claim: &str, timestamp: i64) -> (r: Result<
    String,
    TokenError,
>)
    ensures
        match r {
            Ok(made) => token_with_claim(token@, claim@, timestamp) == Ok::<
                Seq<char>,
                TokenError,
            >(made@),
            Err(error) => token_with_claim(token@, claim@, timestamp) == Err::<
                Seq<char>,
                TokenError,
            >(error),
        },
        r is Ok && integers_only(token_payload(token@)->Ok_0) ==> token_claim(r->Ok_0@, claim@)
            == Some(timestamp),
        r is Ok && token_payload(r->Ok_0@) is Ok ==> token_claim(r->Ok_0@, claim@) == Some(
            timestamp,
        ),
        r is Ok ==> pieces_of(r->Ok_0@, '.').len() == 3 && pieces_of(r->Ok_0@, '.')[0] == pieces_of(
            token@,
            '.',
        )[0] && pieces_of(r->Ok_0@, '.')[2] == pieces_of(token@, '.')[2],
{
    let mut parts = split_on(token, '.');
    let ghost old_parts = pieces_of(token@, '.');
    if parts.len() != 3 {
        return Err(TokenError::NotAToken);
    }
    let payload = match jwt_payload(token) {
        Ok(payload) => payload,
        Err(error) => {
            return Err(error);
        },
    };
    let ghost old_payload = payload@;
    let mut claims = match payload {
        Json::Object(claims) => claims,
        Json::Null => JsonObject::new(),
        _ => {
            return Err(TokenError::NoClaims);
        },
    };
    let ghost old_claims = claims@;
    claims.insert(claim.to_owned(), Json::integer(timestamp));
    let made = Json::Object(claims);
    let text = made.render();
    let encoded = base64_encode(text.as_str().as_bytes());
    let ghost encoded_text = encoded@;
    parts.set(1, encoded);
    proof {
        reveal_strlit(".");
        assert("."@ =~= seq!['.']);
        let new_parts = seq![old_parts[0], encoded_text, old_parts[2]];
        assert(old_parts[0] == parts@[0]@ && old_parts[2] == parts@[2]@);
        assert(views(parts@) =~= new_parts);
        pieces_join_to_the_text(token@, '.');
        assert(!encoded_text.contains('.')) by {
            assert forall|i: int| 0 <= i < encoded_text.len() implies encoded_text[i] != '.' by {
                assert(base64_char(encoded_text[i]));
            }
        }
        assert forall|i: int| 0 <= i < 3 implies !(#[trigger] new_parts[i]).contains('.') by {
            if i == 0 {
                assert(!old_parts[0].contains('.'));
            } else if i == 2 {
                assert(!old_parts[2].contains('.'));
            }
        }
        joined_pieces_read_back(new_parts, '.');
        encode_utf8_valid_utf8(text@);
        encode_utf8_decode_utf8(text@);
        if json_of_text(text@) is Some {
            lemma_alike_members(made@, json_of_text(text@)->0, claim@);
        }
        if integers_only(old_payload) {
            if old_payload is Null {
                assert(old_claims =~= Map::<Seq<char>, JsonTree>::empty());
            }
            lemma_insert_reads_back(old_claims, claim@, JsonTree::Number(number_of(timestamp)), 127);
            assert(reads_back(made@));
        }
    }
    Ok(join(&parts, "."))
}

/// The moment that a claim of a token names.
pub open spec fn claim_moment(token: Seq<char>, claim: Seq<char>) -> Option<Moment> {
    match token_claim(token, claim) {
        Some(secs) => moment_of_second(secs),
        None => None,
    }
}

/// The moment that a claim of a token names.
pub fn claimed_moment(token: &str, claim: &str) -> (r: Option<Moment>)
    ensures
        r == claim_moment(token@, claim@),
        r is Some ==> r->0.is_ordinary(),
{
    match jwt_claim(token, claim) {
        Some(secs) => moment_at(secs),
        None => None,
    }
}

} // verus!
