//! Steam authentication sessions (QR code and credentials): what their
//! replies become, and the device the client announces itself as.

pub mod guard_type;

use vstd::prelude::*;

use crate::text::{str_chars, string_from_chars, text_is_empty};

verus! {

pub const PLATFORM_STEAM_CLIENT: i32 = 1;

pub const PERSISTENCE_PERSISTENT: i32 = 1;

#[derive(Debug, Clone)]
pub struct AuthPollResult {
    pub account_name: String,
    pub refresh_token: String,
    pub access_token: String,
    pub new_guard_data: Option<String>,
}

pub open spec fn opt_text(o: Option<String>) -> Option<Seq<char>> {
    match o {
        Some(s) => Some(s@),
        None => None,
    }
}

/// A text that is present and not empty; none otherwise.
pub open spec fn present(o: Option<Seq<char>>) -> Option<Seq<char>> {
    match o {
        Some(s) => if s.len() > 0 {
            Some(s)
        } else {
            None
        },
        None => None,
    }
}

/// Keeps a text only when it is not empty.
pub fn non_empty(o: Option<String>) -> (r: Option<String>)
    ensures
        opt_text(r) == present(opt_text(o)),
{
    match o {
        Some(s) => if text_is_empty(s.as_str()) {
            None
        } else {
            Some(s)
        },
        None => None,
    }
}

/// The outcome of one poll of an auth session: done when the reply holds
/// a non-empty refresh token and an access token.
pub fn poll_result(
    account_name: Option<String>,
    refresh_token: Option<String>,
    access_token: Option<String>,
    new_guard_data: Option<String>,
) -> (r: Option<AuthPollResult>)
    ensures
        match (opt_text(refresh_token), opt_text(access_token)) {
            (Some(refresh), Some(access)) => if refresh.len() > 0 {
                r matches Some(p) && p.refresh_token@ == refresh && p.access_token@ == access
                    && p.account_name@ == (match opt_text(account_name) {
                    Some(n) => n,
                    None => seq![],
                }) && opt_text(p.new_guard_data) == present(opt_text(new_guard_data))
            } else {
                r is None
            },
            _ => r is None,
        },
{
    match (refresh_token, access_token) {
        (Some(refresh), Some(access)) => {
            if text_is_empty(refresh.as_str()) {
                return None;
            }
            let name = match account_name {
                Some(n) => n,
                None => String::new(),
            };
            Some(
                AuthPollResult {
                    account_name: name,
                    refresh_token: refresh,
                    access_token: access,
                    new_guard_data: non_empty(new_guard_data),
                },
            )
        },
        _ => None,
    }
}

pub open spec fn confirmation_of(e: (Option<i32>, Option<String>)) -> (i32, Seq<char>) {
    (
        match e.0 {
            Some(t) => t,
            None => 0,
        },
        match opt_text(e.1) {
            Some(m) => m,
            None => seq![],
        },
    )
}

pub open spec fn confirmations_view(v: Seq<(i32, String)>) -> Seq<(i32, Seq<char>)> {
    v.map_values(|c: (i32, String)| (c.0, c.1@))
}

/// The allowed confirmations of a begin-session reply, absent fields read
/// as zero and empty.
pub fn confirmations_from_reply(entries: Vec<(Option<i32>, Option<String>)>) -> (r: Vec<(i32, String)>)
    ensures
        confirmations_view(r@) == entries@.map_values(
            |e: (Option<i32>, Option<String>)| confirmation_of(e),
        ),
{
    let ghost ev = entries@;
    let mut rev: Vec<(i32, String)> = Vec::new();
    let mut rest = entries;
    while rest.len() > 0
        invariant
            rest@.len() + rev@.len() == ev.len(),
            rest@ == ev.take(rest@.len() as int),
            forall|j: int|
                0 <= j < rev@.len() ==> (#[trigger] rev@[j]).0 == confirmation_of(ev[ev.len() - 1 - j]).0
                    && rev@[j].1@ == confirmation_of(ev[ev.len() - 1 - j]).1,
        decreases rest@.len(),
    {
        let ghost before = rest@;
        match rest.pop() {
            Some((t, m)) => {
                let ty = match t {
                    Some(v) => v,
                    None => 0,
                };
                let msg = match m {
                    Some(s) => s,
                    None => String::new(),
                };
                rev.push((ty, msg));
            },
            None => {},
        }
        assert(rest@ =~= ev.take(rest@.len() as int));
    }
    let mut out: Vec<(i32, String)> = Vec::new();
    let n = rev.len();
    while rev.len() > 0
        invariant
            out@.len() + rev@.len() == ev.len(),
            n == ev.len(),
            forall|j: int|
                0 <= j < rev@.len() ==> (#[trigger] rev@[j]).0 == confirmation_of(ev[ev.len() - 1 - j]).0
                    && rev@[j].1@ == confirmation_of(ev[ev.len() - 1 - j]).1,
            forall|j: int|
                0 <= j < out@.len() ==> (#[trigger] out@[j]).0 == confirmation_of(ev[j]).0
                    && out@[j].1@ == confirmation_of(ev[j]).1,
        decreases rev@.len(),
    {
        let ghost k = out@.len();
        match rev.pop() {
            Some(c) => {
                assert(ev.len() - 1 - rev@.len() == k);
                out.push(c);
            },
            None => {},
        }
    }
    assert(confirmations_view(out@) =~= ev.map_values(
        |e: (Option<i32>, Option<String>)| confirmation_of(e),
    ));
    out
}

/// The host name announced to Steam: the given one when not empty, else
/// `PC`.
pub fn host_or_pc(name: Option<String>) -> (r: String)
    ensures
        r@ == match present(opt_text(name)) {
            Some(n) => n,
            None => "PC"@,
        },
{
    match non_empty(name) {
        Some(n) => n,
        None => string_from_chars(str_chars("PC").as_slice()),
    }
}

/// `DepotManager (<host>)`.
pub open spec fn device_name_text(host: Seq<char>) -> Seq<char> {
    "DepotManager ("@ + host + ")"@
}

pub fn device_name(host: &str) -> (r: String)
    ensures
        r@ == device_name_text(host@),
{
    let mut cs = str_chars("DepotManager (");
    let h = str_chars(host);
    let ghost a = cs@;
    let mut i: usize = 0;
    while i < h.len()
        invariant
            i <= h@.len(),
            cs@ == a + h@.subrange(0, i as int),
        decreases h@.len() - i,
    {
        cs.push(h[i]);
        i = i + 1;
        assert(cs@ =~= a + h@.subrange(0, i as int));
    }
    assert(h@.subrange(0, h@.len() as int) =~= h@);
    proof {
        reveal_strlit(")");
    }
    cs.push(')');
    assert(cs@ =~= device_name_text(host@));
    string_from_chars(cs.as_slice())
}

} // verus!
