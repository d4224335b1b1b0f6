//! The session lifecycle as the user sees it: login states, the Steam
//! Guard challenge shown for an auth session, saved logins, the cached CM
//! endpoints and reconnection.

use vstd::prelude::*;

use crate::auth::guard_type;
use crate::connection::texts;
use crate::session::{jwt_account, jwt_account_id};
use crate::state::{account_named, accounts_view, upserted, AccountView, SavedAccount, Settings};
use crate::text::{str_chars, string_chars, string_from_chars};

verus! {

#[derive(Debug, Clone)]
pub enum LoginState {
    Offline { message: String },
    Connecting,
    Authenticating { detail: String },
    LoggingOn,
    Online { account_name: String, steamid: u64, anonymous: bool },
}

impl Default for LoginState {
    fn default() -> (r: LoginState)
        ensures
            r matches LoginState::Offline { message } && message@ == "未登录"@,
    {
        LoginState::Offline { message: string_from_chars(str_chars("未登录").as_slice()) }
    }
}

/// The name shown for an anonymous session.
pub fn anonymous_name() -> (r: String)
    ensures
        r@ == "匿名用户"@,
{
    string_from_chars(str_chars("匿名用户").as_slice())
}

#[derive(Debug, Clone)]
pub struct AuthChallenge {
    /// "none" | "email_code" | "device_code" | "confirmation" | "qr"
    pub kind: String,
    pub message: String,
}

/// The kinds of challenge an auth session can pose.
#[derive(Debug, Clone, Copy, PartialEq, Eq, Structural)]
pub enum ChallengeKind {
    NoCheck,
    DeviceCode,
    EmailCode,
    Confirmation,
}

pub open spec fn kind_text(k: ChallengeKind) -> Seq<char> {
    match k {
        ChallengeKind::NoCheck => "none"@,
        ChallengeKind::DeviceCode => "device_code"@,
        ChallengeKind::EmailCode => "email_code"@,
        ChallengeKind::Confirmation => "confirmation"@,
    }
}

pub open spec fn or_default(m: Seq<char>, d: Seq<char>) -> Seq<char> {
    if m.len() == 0 {
        d
    } else {
        m
    }
}

pub open spec fn device_code_text() -> Seq<char> {
    "请输入 Steam 手机令牌验证码"@
}

pub open spec fn email_code_text() -> Seq<char> {
    "请输入发送到邮箱的验证码"@
}

pub open spec fn confirm_text() -> Seq<char> {
    "请在 Steam 手机应用上确认登录"@
}

pub open spec fn no_check_text() -> Seq<char> {
    "无需额外验证"@
}

/// The challenge chosen from the allowed confirmations, read in order: a
/// device code wins at once; an email code replaces what came before; a
/// confirmation is taken only while nothing else was.
pub open spec fn challenge_scan(
    confs: Seq<(i32, Seq<char>)>,
    kind: ChallengeKind,
    message: Seq<char>,
) -> (ChallengeKind, Seq<char>)
    decreases confs.len(),
{
    if confs.len() == 0 {
        (kind, message)
    } else {
        let (ty, m) = confs[0];
        let rest = confs.drop_first();
        if ty == guard_type::DEVICE_CODE {
            (ChallengeKind::DeviceCode, or_default(m, device_code_text()))
        } else if ty == guard_type::EMAIL_CODE {
            challenge_scan(rest, ChallengeKind::EmailCode, or_default(m, email_code_text()))
        } else if (ty == guard_type::DEVICE_CONFIRMATION || ty == guard_type::EMAIL_CONFIRMATION)
            && kind == ChallengeKind::NoCheck {
            challenge_scan(rest, ChallengeKind::Confirmation, or_default(m, confirm_text()))
        } else {
            challenge_scan(rest, kind, message)
        }
    }
}

/// The challenge of an auth session: the chosen kind and its message;
/// without one, a note that nothing more is needed.
pub open spec fn challenge_of(confs: Seq<(i32, Seq<char>)>) -> (Seq<char>, Seq<char>) {
    let (k, m) = challenge_scan(confs, ChallengeKind::NoCheck, seq![]);
    (kind_text(k), if k == ChallengeKind::NoCheck {
        no_check_text()
    } else {
        m
    })
}

fn text_of(s: &str) -> (r: String)
    ensures
        r@ == s@,
{
    string_from_chars(str_chars(s).as_slice())
}

fn message_or(m: &String, d: &str) -> (r: String)
    ensures
        r@ == or_default(m@, d@),
{
    if crate::text::text_is_empty(m.as_str()) {
        text_of(d)
    } else {
        m.clone()
    }
}

/// The challenge shown for an auth session, from its allowed
/// confirmations.
pub fn challenge_from_state(confirmations: &Vec<(i32, String)>) -> (r: AuthChallenge)
    ensures
        (r.kind@, r.message@) == challenge_of(crate::auth::confirmations_view(confirmations@)),
{
    let ghost cv = crate::auth::confirmations_view(confirmations@);
    let mut kind = ChallengeKind::NoCheck;
    let mut message = String::new();
    let mut i: usize = 0;
    assert(cv.skip(0) =~= cv);
    while i < confirmations.len()
        invariant_except_break
            i <= confirmations@.len(),
            cv == crate::auth::confirmations_view(confirmations@),
            challenge_scan(cv, ChallengeKind::NoCheck, seq![]) == challenge_scan(
                cv.skip(i as int),
                kind,
                message@,
            ),
        ensures
            challenge_scan(cv, ChallengeKind::NoCheck, seq![]) == (kind, message@),
        decreases confirmations@.len() - i,
    {
        let ty = confirmations[i].0;
        let m = &confirmations[i].1;
        assert(cv.skip(i as int)[0] == (ty, m@));
        assert(cv.skip(i as int).drop_first() =~= cv.skip(i + 1));
        if ty == guard_type::DEVICE_CODE {
            kind = ChallengeKind::DeviceCode;
            message = message_or(m, "请输入 Steam 手机令牌验证码");
            break;
        } else if ty == guard_type::EMAIL_CODE {
            kind = ChallengeKind::EmailCode;
            message = message_or(m, "请输入发送到邮箱的验证码");
        } else if (ty == guard_type::DEVICE_CONFIRMATION || ty == guard_type::EMAIL_CONFIRMATION)
            && kind == ChallengeKind::NoCheck {
            kind = ChallengeKind::Confirmation;
            message = message_or(m, "请在 Steam 手机应用上确认登录");
        }
        i = i + 1;
        proof {
            if i == confirmations@.len() {
                assert(cv.skip(i as int) =~= seq![]);
            }
        }
    }
    let kind_name = match kind {
        ChallengeKind::NoCheck => text_of("none"),
        ChallengeKind::DeviceCode => text_of("device_code"),
        ChallengeKind::EmailCode => text_of("email_code"),
        ChallengeKind::Confirmation => text_of("confirmation"),
    };
    if kind == ChallengeKind::NoCheck {
        message = text_of("无需额外验证");
    }
    AuthChallenge { kind: kind_name, message }
}

/// The SteamID shown for a refresh token: an individual account in the
/// public universe (instance zero) with the token's account id; zero when
/// the token carries none.
pub fn steamid_from_token(token: &str) -> (r: u64)
    ensures
        r == match jwt_account(token@) {
            Some(id) => 0x0110_0000_0000_0000 + id,
            None => 0,
        },
{
    match jwt_account_id(token) {
        Some(id) => {
            let a = id as u64;
            assert(a < 0x1_0000_0000 ==> (1u64 << 56u64) | (1u64 << 52u64) | a
                == 0x0110_0000_0000_0000 + a) by (bit_vector);
            (1u64 << 56) | (1u64 << 52) | a
        },
        None => 0,
    }
}

// ------------------------------------------------------------------
// Saved logins
// ------------------------------------------------------------------

/// The saved login to try at startup: the last-used account when it is
/// still saved (its saved name and refresh token).
pub fn auto_login_account(settings: &Settings) -> (r: Option<(String, String)>)
    ensures
        match settings.last_account {
            Some(n) => match account_named(accounts_view(settings.accounts@), n@) {
                Some(a) => r matches Some(p) && p.0@ == a.account_name && p.1@ == a.refresh_token,
                None => r is None,
            },
            None => r is None,
        },
{
    match &settings.last_account {
        Some(name) => match settings.find_account(name.as_str()) {
            Some(a) => Some((a.account_name.clone(), a.refresh_token.clone())),
            None => None,
        },
        None => None,
    }
}

/// Saves the account of a finished auth session and makes it the last
/// used one.
pub fn remember_login(
    settings: &mut Settings,
    account_name: String,
    refresh_token: String,
    guard_data: Option<String>,
)
    ensures
        accounts_view(final(settings).accounts@) == upserted(
            accounts_view(old(settings).accounts@),
            AccountView {
                account_name: account_name@,
                steamid: match jwt_account(refresh_token@) {
                    Some(id) => (0x0110_0000_0000_0000 + id) as u64,
                    None => 0,
                },
                refresh_token: refresh_token@,
                guard_data: match guard_data {
                    Some(g) => Some(g@),
                    None => None,
                },
            },
        ),
        final(settings).last_account matches Some(n) && n@ == account_name@,
        crate::state::same_config(*final(settings), *old(settings)),
{
    let steamid = steamid_from_token(refresh_token.as_str());
    let last = account_name.clone();
    settings.upsert_account(
        SavedAccount { account_name, steamid, refresh_token, guard_data },
    );
    settings.last_account = Some(last);
}

// ------------------------------------------------------------------
// CM endpoints
// ------------------------------------------------------------------

/// At most this many CM endpoints are kept.
pub const MAX_ENDPOINTS: usize = 50;

pub open spec fn capped(s: Seq<Seq<char>>) -> Seq<Seq<char>> {
    if s.len() > 50 {
        s.take(50)
    } else {
        s
    }
}

/// Puts the endpoint in use first (when it is not first already) and
/// keeps at most 50; true when the list changed and needs saving.
pub fn remember_endpoint(endpoints: &mut Vec<String>, used: String) -> (changed: bool)
    ensures
        changed == !(old(endpoints)@.len() > 0 && old(endpoints)@[0]@ == used@),
        changed ==> texts(final(endpoints)@) == capped(seq![used@] + texts(old(endpoints)@)),
        !changed ==> final(endpoints)@ == old(endpoints)@,
{
    if endpoints.len() > 0 && crate::text::string_eq(&endpoints[0], &used) {
        return false;
    }
    let ghost u = used@;
    endpoints.insert(0, used);
    endpoints.truncate(MAX_ENDPOINTS);
    proof {
        assert(texts(endpoints@) =~= capped(seq![u] + texts(old(endpoints)@)));
    }
    true
}

/// The list with each fresh endpoint it lacks appended, in order.
pub open spec fn merged_endpoints(list: Seq<Seq<char>>, fresh: Seq<Seq<char>>) -> Seq<Seq<char>>
    decreases fresh.len(),
{
    if fresh.len() == 0 {
        list
    } else {
        let m = merged_endpoints(list, fresh.drop_last());
        if m.contains(fresh.last()) {
            m
        } else {
            m.push(fresh.last())
        }
    }
}

fn texts_contain(v: &Vec<String>, s: &String) -> (r: bool)
    ensures
        r == texts(v@).contains(s@),
{
    let mut i: usize = 0;
    while i < v.len()
        invariant
            i <= v@.len(),
            forall|k: int| 0 <= k < i ==> v@[k]@ != s@,
        decreases v@.len() - i,
    {
        if crate::text::string_eq(&v[i], s) {
            assert(texts(v@)[i as int] == s@);
            return true;
        }
        i = i + 1;
    }
    proof {
        if texts(v@).contains(s@) {
            let k = choose|k: int| 0 <= k < texts(v@).len() && texts(v@)[k] == s@;
            assert(v@[k]@ == s@);
        }
    }
    false
}

/// The list that remembering an endpoint leaves starts with that endpoint;
/// by the contract of [`remember_endpoint`], remembering it again then
/// reports no change and leaves the list as it is.
pub proof fn lemma_remember_endpoint_settles(before: Seq<Seq<char>>, used: Seq<char>)
    ensures
        capped(seq![used] + before).len() > 0 && capped(seq![used] + before)[0] == used,
{
    assert((seq![used] + before)[0] == used);
}

/// Adds the endpoints of a fresh directory listing that are not known yet
/// and keeps at most 50.
pub fn merge_endpoints(endpoints: &mut Vec<String>, fresh: Vec<String>)
    ensures
        texts(final(endpoints)@) == capped(merged_endpoints(texts(old(endpoints)@), texts(fresh@))),
{
    let ghost fv = texts(fresh@);
    let ghost start = texts(endpoints@);
    let mut rev: Vec<String> = Vec::new();
    let mut rest = fresh;
    while rest.len() > 0
        invariant
            texts(rest@) + texts(rev@).reverse() == fv,
        decreases rest@.len(),
    {
        let ghost before_rest = rest@;
        let ghost before_rev = rev@;
        match rest.pop() {
            Some(e) => {
                rev.push(e);
                proof {
                    assert(texts(before_rest) =~= texts(rest@).push(e@));
                    assert(texts(rev@).reverse() =~= seq![e@] + texts(before_rev).reverse());
                }
            },
            None => {},
        }
    }
    assert(texts(rev@).reverse() =~= fv);
    let ghost n = fv.len();
    assert(fv.take(0) =~= seq![]);
    while rev.len() > 0
        invariant
            texts(rev@).reverse() == fv.subrange(fv.len() - rev@.len(), fv.len() as int),
            rev@.len() <= fv.len(),
            start == texts(old(endpoints)@),
            texts(endpoints@) == merged_endpoints(start, fv.take(fv.len() - rev@.len())),
        decreases rev@.len(),
    {
        let ghost k = fv.len() - rev@.len();
        let ghost before_rev = rev@;
        match rev.pop() {
            Some(e) => {
                proof {
                    assert(texts(before_rev).reverse() =~= seq![e@] + texts(rev@).reverse());
                    assert(fv[k] == e@) by {
                        assert(fv.subrange(k, fv.len() as int)[0] == fv[k]);
                    }
                    assert(fv.take(k + 1).drop_last() =~= fv.take(k));
                    let tail = fv.subrange(k, fv.len() as int);
                    assert((seq![e@] + texts(rev@).reverse()).drop_first() =~= texts(rev@).reverse());
                    assert(tail.drop_first() =~= fv.subrange(k + 1, fv.len() as int));
                }
                if !texts_contain(endpoints, &e) {
                    let ghost before = endpoints@;
                    endpoints.push(e);
                    assert(texts(endpoints@) =~= texts(before).push(fv[k]));
                }
            },
            None => {},
        }
    }
    assert(fv.take(fv.len() as int) =~= fv);
    let ghost m = texts(endpoints@);
    endpoints.truncate(MAX_ENDPOINTS);
    assert(texts(endpoints@) =~= capped(m));
}

// ------------------------------------------------------------------
// Reconnection
// ------------------------------------------------------------------

/// A disconnect the user asked for is not followed by a reconnect.
pub fn is_user_disconnect(reason: &str) -> (r: bool)
    ensures
        r == crate::store::has_substring(reason@, "主动断开"@),
{
    crate::store::contains_text(&str_chars(reason), &str_chars("主动断开"))
}

/// The pause before reconnect attempt `attempt` (counted from 1).
pub fn reconnect_delay_secs(attempt: u32) -> (r: u64)
    ensures
        r == 2 + 3 * attempt,
{
    2 + attempt as u64 * 3
}

/// The log line of a task event: `[<first six characters of the id>] <line>`.
pub open spec fn task_line_text(task_id: Seq<char>, line: Seq<char>) -> Seq<char> {
    seq!['['] + task_id.take(if task_id.len() < 6 {
        task_id.len() as int
    } else {
        6
    }) + seq![']', ' '] + line
}

pub fn task_log_line(task_id: &str, line: &str) -> (r: String)
    ensures
        r@ == task_line_text(task_id@, line@),
{
    let id = str_chars(task_id);
    let l = str_chars(line);
    let n = if id.len() < 6 {
        id.len()
    } else {
        6
    };
    let mut out: Vec<char> = Vec::new();
    out.push('[');
    let mut i: usize = 0;
    while i < n
        invariant
            i <= n <= id@.len(),
            out@ == seq!['['] + id@.take(i as int),
        decreases n - i,
    {
        out.push(id[i]);
        i = i + 1;
        assert(out@ =~= seq!['['] + id@.take(i as int));
    }
    out.push(']');
    out.push(' ');
    let ghost b = out@;
    let mut j: usize = 0;
    while j < l.len()
        invariant
            j <= l@.len(),
            out@ == b + l@.subrange(0, j as int),
        decreases l@.len() - j,
    {
        out.push(l[j]);
        j = j + 1;
        assert(out@ =~= b + l@.subrange(0, j as int));
    }
    assert(l@.subrange(0, l@.len() as int) =~= l@);
    assert(out@ =~= task_line_text(task_id@, line@));
    string_from_chars(out.as_slice())
}

} // verus!
