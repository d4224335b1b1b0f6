//! Steam session helpers: the claims of a Steam JWT (account id, expiry)
//! and what the logon wait makes of connection events.

use base64::Engine;
use vstd::prelude::*;
use vstd::string::StringSliceAdditionalSpecFns;
use vstd::utf8::encode_utf8;

use crate::connection::{ConnectionEvent, ConnectionState};
use crate::kv::{split_chars, split_on};
use crate::text::{parse_u64, parse_unsigned, string_chars, string_from_chars};

verus! {

/// The payload part of a JWT: the text between its first and second dot.
pub open spec fn jwt_payload(token: Seq<char>) -> Option<Seq<char>> {
    let parts = split_on(token, '.');
    if parts.len() >= 2 {
        Some(parts[1])
    } else {
        None
    }
}

/// URL-safe base64 decoding without padding, as
/// `base64::engine::general_purpose::URL_SAFE_NO_PAD` decodes; `None` for
/// invalid input.
pub uninterp spec fn base64_url_decoded(text: Seq<u8>) -> Option<Seq<u8>>;

/// The string field `key` of a JSON object, as `serde_json` parses it
/// (`Value::get` then `as_str`); `None` when the text is not JSON, has no
/// such field, or the field is not a string.
pub uninterp spec fn json_text_field(json: Seq<u8>, key: Seq<char>) -> Option<Seq<char>>;

/// The unsigned integer field `key` of a JSON object (`Value::get` then
/// `as_u64`).
pub uninterp spec fn json_u64_field(json: Seq<u8>, key: Seq<char>) -> Option<u64>;

/// Calls `URL_SAFE_NO_PAD.decode`; the result is named by
/// [`base64_url_decoded`].
#[verifier::external_body]
fn base64_url_decode(text: &[u8]) -> (r: Option<Vec<u8>>)
    ensures
        match base64_url_decoded(text@) {
            Some(d) => r matches Some(v) && v@ == d,
            None => r is None,
        },
{
    base64::engine::general_purpose::URL_SAFE_NO_PAD.decode(text).ok()
}

/// Parses JSON with `serde_json::from_slice` and reads a string field; the
/// result is named by [`json_text_field`].
#[verifier::external_body]
fn json_str_field(json: &[u8], key: &str) -> (r: Option<String>)
    ensures
        match json_text_field(json@, key@) {
            Some(t) => r matches Some(s) && s@ == t,
            None => r is None,
        },
{
    let v: serde_json::Value = serde_json::from_slice(json).ok()?;
    v.get(key)?.as_str().map(|s| s.to_string())
}

/// Parses JSON with `serde_json::from_slice` and reads an unsigned
/// integer field; the result is named by [`json_u64_field`].
#[verifier::external_body]
fn json_u64(json: &[u8], key: &str) -> (r: Option<u64>)
    ensures
        r == json_u64_field(json@, key@),
{
    let v: serde_json::Value = serde_json::from_slice(json).ok()?;
    v.get(key)?.as_u64()
}

/// The decoded claims of a JWT.
pub open spec fn jwt_claims(token: Seq<char>) -> Option<Seq<u8>> {
    match jwt_payload(token) {
        Some(p) => base64_url_decoded(encode_utf8(p)),
        None => None,
    }
}

fn claims_of(token: &str) -> (r: Option<Vec<u8>>)
    ensures
        match jwt_claims(token@) {
            Some(c) => r matches Some(v) && v@ == c,
            None => r is None,
        },
{
    let parts = split_chars(crate::text::str_chars(token).as_slice(), '.');
    if parts.len() < 2 {
        return None;
    }
    let payload = string_from_chars(parts[1].as_slice());
    assert(payload@ == split_on(token@, '.')[1]);
    base64_url_decode(payload.as_str().as_bytes())
}

/// The account id in a Steam JWT: the low 32 bits of the SteamID in its
/// `sub` claim.
pub open spec fn jwt_account(token: Seq<char>) -> Option<u32> {
    match jwt_claims(token) {
        Some(c) => match json_text_field(c, "sub"@) {
            Some(s) => match parse_unsigned(s, u64::MAX as int) {
                Some(v) => Some((v % 0x1_0000_0000) as u32),
                None => None,
            },
            None => None,
        },
        None => None,
    }
}

/// Extracts the account id (lower 32 bits of the steamid `sub`) from a
/// Steam JWT.
pub fn jwt_account_id(token: &str) -> (r: Option<u32>)
    ensures
        r == jwt_account(token@),
{
    let claims = match claims_of(token) {
        Some(c) => c,
        None => {
            return None;
        },
    };
    let sub = match json_str_field(claims.as_slice(), "sub") {
        Some(s) => s,
        None => {
            return None;
        },
    };
    match parse_u64(string_chars(&sub).as_slice()) {
        Some(v) => Some(crate::msgs::steamid::account_id(v)),
        None => None,
    }
}

/// Extracts the expiry (Unix seconds) from a Steam JWT, if present.
pub fn jwt_expiry(token: &str) -> (r: Option<u64>)
    ensures
        r == match jwt_claims(token@) {
            Some(c) => json_u64_field(c, "exp"@),
            None => None,
        },
{
    match claims_of(token) {
        Some(c) => json_u64(c.as_slice(), "exp"),
        None => None,
    }
}

/// Why waiting for a logon ended without one.
#[derive(Debug, Clone, PartialEq, Eq)]
pub enum LogonError {
    /// Steam refused the logon with this result code.
    Failed(i32),
    /// The connection went away, for this reason.
    Disconnected(String),
}

/// What an event means to a logon wait: the SteamID of a logon, a failure,
/// or nothing (keep waiting).
pub fn logon_outcome(ev: &ConnectionEvent) -> (r: Option<Result<u64, LogonError>>)
    ensures
        match *ev {
            ConnectionEvent::LoggedOn { steamid, .. } => r == Some(Ok::<u64, LogonError>(steamid)),
            ConnectionEvent::LogonFailed { eresult } => r == Some(
                Err::<u64, LogonError>(LogonError::Failed(eresult)),
            ),
            ConnectionEvent::Disconnected { reason } => r matches Some(Err(LogonError::Disconnected(m)))
                && m@ == reason@,
            _ => r is None,
        },
{
    match ev {
        ConnectionEvent::LoggedOn { steamid, .. } => Some(Ok(*steamid)),
        ConnectionEvent::LogonFailed { eresult } => Some(Err(LogonError::Failed(*eresult))),
        ConnectionEvent::Disconnected { reason } => Some(
            Err(LogonError::Disconnected(reason.clone())),
        ),
        _ => None,
    }
}

/// How long the heartbeat loop sleeps before its next beat: the interval
/// the logon asked for, at least 5 seconds; none once logged off, which ends
/// the loop.
pub fn heartbeat_delay(state: &ConnectionState) -> (r: Option<u64>)
    ensures
        !state.logged_on ==> r is None,
        state.logged_on ==> r == Some(
            if state.heartbeat_seconds < 5 {
                5u64
            } else {
                state.heartbeat_seconds as u64
            },
        ),
{
    if !state.logged_on {
        return None;
    }
    let secs: u32 = if state.heartbeat_seconds < 5 {
        5
    } else {
        state.heartbeat_seconds
    };
    Some(secs as u64)
}

} // verus!
