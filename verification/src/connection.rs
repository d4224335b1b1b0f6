//! The CM connection's bookkeeping: the events it reports, its session
//! state and how received packets update it, `Multi` message unpacking,
//! job routing and CM endpoint selection.

use std::io::Read;

use vstd::prelude::*;

use crate::kv::le_u32;
use crate::msgs::{
    copy_range, emsg, eresult, lemma_le_u32_at, read_u32_le, u32_le, ProtoHeader, JOBID_NONE,
};
use crate::text::{str_chars, string_chars, string_eq_str, string_from_chars, u64_decimal, decimal};

verus! {

/// Events broadcast by the connection and session layers.
#[derive(Debug, Clone)]
pub enum ConnectionEvent {
    Connected,
    /// Logon succeeded.
    LoggedOn { steamid: u64, cell_id: u32, ip_country: String },
    /// Logon failed with an EResult.
    LogonFailed { eresult: i32 },
    /// Received the account license list.
    Licenses { count: usize },
    /// Server told us we got logged off.
    LoggedOff { eresult: i32 },
    /// The connection was lost (or shut down).
    Disconnected { reason: String },
    /// Free-form log line for the UI.
    Log(String),
}

pub struct ConnectionState {
    pub steamid: u64,
    pub session_id: i32,
    pub cell_id: u32,
    pub logged_on: bool,
    pub heartbeat_seconds: u32,
    /// `(package_id, access_token)`
    pub licenses: Vec<(u32, u64)>,
}

impl Default for ConnectionState {
    fn default() -> (r: ConnectionState)
        ensures
            r.steamid == 0,
            r.session_id == 0,
            r.cell_id == 0,
            !r.logged_on,
            r.heartbeat_seconds == 0,
            r.licenses@.len() == 0,
    {
        ConnectionState {
            steamid: 0,
            session_id: 0,
            cell_id: 0,
            logged_on: false,
            heartbeat_seconds: 0,
            licenses: Vec::new(),
        }
    }
}

#[derive(Debug, Clone)]
pub struct ConnectionStateSnapshot {
    pub steamid: u64,
    pub session_id: i32,
    pub cell_id: u32,
    pub logged_on: bool,
    pub licenses: Vec<(u32, u64)>,
}

impl Default for ConnectionStateSnapshot {
    fn default() -> (r: ConnectionStateSnapshot)
        ensures
            r.steamid == 0,
            r.session_id == 0,
            r.cell_id == 0,
            !r.logged_on,
            r.licenses@.len() == 0,
    {
        ConnectionStateSnapshot {
            steamid: 0,
            session_id: 0,
            cell_id: 0,
            logged_on: false,
            licenses: Vec::new(),
        }
    }
}

/// The fields of `CMsgClientLogonResponse` the connection reads.
#[derive(Debug, Clone)]
pub struct LogonResponse {
    pub eresult: Option<i32>,
    pub cell_id: Option<u32>,
    pub heartbeat_seconds: Option<i32>,
    pub ip_country_code: Option<String>,
}

fn copy_licenses(v: &Vec<(u32, u64)>) -> (r: Vec<(u32, u64)>)
    ensures
        r@ == v@,
{
    let mut out: Vec<(u32, u64)> = Vec::new();
    let mut i: usize = 0;
    while i < v.len()
        invariant
            i <= v@.len(),
            out@ == v@.subrange(0, i as int),
        decreases v@.len() - i,
    {
        out.push(v[i]);
        i = i + 1;
        assert(out@ =~= v@.subrange(0, i as int));
    }
    assert(out@ =~= v@);
    out
}

/// The heartbeat interval a logon response asks for: 15 seconds when
/// absent, at least 5.
pub open spec fn heartbeat_of(h: Option<i32>) -> u32 {
    let v = match h {
        Some(x) => x,
        None => 15,
    };
    (if v < 5 {
        5
    } else {
        v
    }) as u32
}

/// The license list of a reply, absent fields read as zero.
pub open spec fn licenses_of(v: Seq<(Option<u32>, Option<u64>)>) -> Seq<(u32, u64)> {
    v.map_values(|l: (Option<u32>, Option<u64>)| (l.0.unwrap_or(0), l.1.unwrap_or(0)))
}

/// The logon succeeded (a missing result counts as a failure).
pub open spec fn logon_ok(resp: LogonResponse) -> bool {
    resp.eresult.unwrap_or(eresult::FAIL) == eresult::OK
}

/// The event reported for a successful logon.
pub open spec fn logged_on_event(ev: ConnectionEvent, header: ProtoHeader, resp: LogonResponse) -> bool {
    match ev {
        ConnectionEvent::LoggedOn { steamid, cell_id, ip_country } => steamid == header.steamid.unwrap_or(
            0,
        ) && cell_id == resp.cell_id.unwrap_or(0) && ip_country@ == match resp.ip_country_code {
            Some(c) => c@,
            None => seq![],
        },
        _ => false,
    }
}

pub open spec fn logon_failed_event(resp: LogonResponse) -> ConnectionEvent {
    ConnectionEvent::LogonFailed { eresult: resp.eresult.unwrap_or(eresult::FAIL) }
}

/// The session fields other than the licenses are the same.
pub open spec fn same_session(a: ConnectionState, b: ConnectionState) -> bool {
    &&& a.steamid == b.steamid
    &&& a.session_id == b.session_id
    &&& a.cell_id == b.cell_id
    &&& a.logged_on == b.logged_on
    &&& a.heartbeat_seconds == b.heartbeat_seconds
}

impl ConnectionState {
    pub fn snapshot(&self) -> (r: ConnectionStateSnapshot)
        ensures
            r.steamid == self.steamid,
            r.session_id == self.session_id,
            r.cell_id == self.cell_id,
            r.logged_on == self.logged_on,
            r.licenses@ == self.licenses@,
    {
        ConnectionStateSnapshot {
            steamid: self.steamid,
            session_id: self.session_id,
            cell_id: self.cell_id,
            logged_on: self.logged_on,
            licenses: copy_licenses(&self.licenses),
        }
    }

    pub fn set_logged_off(&mut self)
        ensures
            !final(self).logged_on,
            final(self).session_id == 0,
            final(self).steamid == old(self).steamid,
            final(self).cell_id == old(self).cell_id,
            final(self).heartbeat_seconds == old(self).heartbeat_seconds,
            final(self).licenses@ == old(self).licenses@,
    {
        self.logged_on = false;
        self.session_id = 0;
    }

    /// A logon response: on success the session fields are taken from the
    /// packet header and the reply, and the session is logged on; either
    /// way the event to report is returned.
    pub fn on_logon_response(&mut self, header: &ProtoHeader, resp: &LogonResponse) -> (ev:
        ConnectionEvent)
        ensures
            logon_ok(*resp) ==> final(self).steamid == header.steamid.unwrap_or(0),
            logon_ok(*resp) ==> final(self).session_id == header.client_sessionid.unwrap_or(0),
            logon_ok(*resp) ==> final(self).cell_id == resp.cell_id.unwrap_or(0),
            logon_ok(*resp) ==> final(self).logged_on,
            logon_ok(*resp) ==> final(self).heartbeat_seconds == heartbeat_of(
                resp.heartbeat_seconds,
            ),
            logon_ok(*resp) ==> logged_on_event(ev, *header, *resp),
            !logon_ok(*resp) ==> same_session(*final(self), *old(self)),
            !logon_ok(*resp) ==> ev == logon_failed_event(*resp),
            final(self).licenses@ == old(self).licenses@,
    {
        let result = resp.eresult.unwrap_or(eresult::FAIL);
        if result == eresult::OK {
            self.steamid = header.steamid.unwrap_or(0);
            self.session_id = header.client_sessionid.unwrap_or(0);
            self.cell_id = resp.cell_id.unwrap_or(0);
            self.logged_on = true;
            let h = resp.heartbeat_seconds.unwrap_or(15);
            self.heartbeat_seconds = if h < 5 {
                5
            } else {
                h as u32
            };
            let country = match &resp.ip_country_code {
                Some(c) => c.clone(),
                None => String::new(),
            };
            ConnectionEvent::LoggedOn {
                steamid: header.steamid.unwrap_or(0),
                cell_id: resp.cell_id.unwrap_or(0),
                ip_country: country,
            }
        } else {
            ConnectionEvent::LogonFailed { eresult: result }
        }
    }

    /// The server logged the session off.
    pub fn on_logged_off(&mut self, result: Option<i32>) -> (ev: ConnectionEvent)
        ensures
            !final(self).logged_on,
            final(self).steamid == old(self).steamid,
            final(self).session_id == old(self).session_id,
            final(self).cell_id == old(self).cell_id,
            final(self).heartbeat_seconds == old(self).heartbeat_seconds,
            final(self).licenses@ == old(self).licenses@,
            ev == (ConnectionEvent::LoggedOff { eresult: result.unwrap_or(eresult::FAIL) }),
    {
        self.logged_on = false;
        ConnectionEvent::LoggedOff { eresult: result.unwrap_or(eresult::FAIL) }
    }

    /// The account's license list arrived; it replaces the one held.
    pub fn on_license_list(&mut self, licenses: &Vec<(Option<u32>, Option<u64>)>) -> (ev:
        ConnectionEvent)
        ensures
            final(self).licenses@ == licenses_of(licenses@),
            final(self).steamid == old(self).steamid,
            final(self).session_id == old(self).session_id,
            final(self).cell_id == old(self).cell_id,
            final(self).logged_on == old(self).logged_on,
            final(self).heartbeat_seconds == old(self).heartbeat_seconds,
            ev == (ConnectionEvent::Licenses { count: licenses@.len() as usize }),
    {
        let mut out: Vec<(u32, u64)> = Vec::new();
        let mut i: usize = 0;
        while i < licenses.len()
            invariant
                i <= licenses@.len(),
                out@ == licenses_of(licenses@).subrange(0, i as int),
            decreases licenses@.len() - i,
        {
            let (p, t) = licenses[i];
            out.push((p.unwrap_or(0), t.unwrap_or(0)));
            i = i + 1;
            assert(out@ =~= licenses_of(licenses@).subrange(0, i as int));
        }
        assert(out@ =~= licenses_of(licenses@));
        let count = out.len();
        self.licenses = out;
        ConnectionEvent::Licenses { count }
    }
}

// ------------------------------------------------------------------
// Multi messages
// ------------------------------------------------------------------

/// The packets a `Multi` body holds: each a little-endian `u32` length
/// and that many bytes; a length that runs past the end ends the list.
pub open spec fn multi_parts(d: Seq<u8>) -> Seq<Seq<u8>>
    decreases d.len(),
{
    if d.len() < 4 {
        seq![]
    } else {
        let len = le_u32(d, 0);
        if d.len() - 4 < len {
            seq![]
        } else {
            seq![d.subrange(4, 4 + len)] + multi_parts(d.subrange(4 + len, d.len() as int))
        }
    }
}

/// A `Multi` body built from parts: each part's length as a little-endian
/// `u32`, then the part.
pub open spec fn framed_parts(ps: Seq<Seq<u8>>) -> Seq<u8>
    decreases ps.len(),
{
    if ps.len() == 0 {
        seq![]
    } else {
        u32_le(ps[0].len() as u32) + ps[0] + framed_parts(ps.drop_first())
    }
}

/// Splitting a `Multi` body framed from parts gives back exactly those
/// parts, for parts of any length a `u32` holds.
#[verifier::rlimit(40)]
pub proof fn lemma_multi_parts_roundtrip(ps: Seq<Seq<u8>>)
    requires
        forall|i: int| 0 <= i < ps.len() ==> (#[trigger] ps[i]).len() <= u32::MAX,
    ensures
        multi_parts(framed_parts(ps)) == ps,
    decreases ps.len(),
{
    if ps.len() > 0 {
        let p = ps[0];
        let rest = ps.drop_first();
        assert forall|i: int| 0 <= i < rest.len() implies (#[trigger] rest[i]).len() <= u32::MAX by {
            assert(rest[i] == ps[i + 1]);
        }
        lemma_multi_parts_roundtrip(rest);
        let len = p.len() as u32;
        assert(ps[0].len() <= u32::MAX);
        assert(len == p.len());
        let h = u32_le(len);
        let tail = framed_parts(rest);
        let d = h + p + tail;
        assert(framed_parts(ps) == d);
        assert(h.len() == 4);
        assert(d.subrange(0, 4) =~= h);
        lemma_le_u32_at(d, 0, len);
        assert(d.subrange(4, 4 + p.len() as int) =~= p);
        assert(d.subrange(4 + p.len() as int, d.len() as int) =~= tail);
        assert(multi_parts(d) == seq![d.subrange(4, 4 + len as int)] + multi_parts(
            d.subrange(4 + len as int, d.len() as int),
        ));
        assert(seq![p] + rest =~= ps);
    }
}

/// Splits a (decompressed) `Multi` body into its packets.
pub fn split_multi(plain: &[u8]) -> (r: Vec<Vec<u8>>)
    ensures
        r@.len() == multi_parts(plain@).len(),
        forall|i: int| 0 <= i < r@.len() ==> (#[trigger] r@[i])@ == multi_parts(plain@)[i],
{
    let mut out: Vec<Vec<u8>> = Vec::new();
    let mut pos: usize = 0;
    let mut done = false;
    let ghost whole = multi_parts(plain@);
    assert(plain@.subrange(0, plain@.len() as int) =~= plain@);
    assert(out@.map_values(|v: Vec<u8>| v@) =~= seq![]);
    while !done && plain.len() - pos >= 4
        invariant
            pos <= plain@.len(),
            whole == multi_parts(plain@),
            whole == out@.map_values(|v: Vec<u8>| v@) + multi_parts(
                plain@.subrange(pos as int, plain@.len() as int),
            ),
            done ==> multi_parts(plain@.subrange(pos as int, plain@.len() as int)) =~= seq![],
        decreases plain@.len() - pos, if done { 0int } else { 1int },
    {
        let ghost cur = plain@.subrange(pos as int, plain@.len() as int);
        let len = read_u32_le(plain, pos);
        assert(le_u32(cur, 0) == le_u32(plain@, pos as int));
        if plain.len() - pos - 4 < len as usize {
            done = true;
        } else {
            let next = pos + 4 + len as usize;
            let part = copy_range(plain, pos + 4, next);
            let ghost before = out@;
            assert(cur.subrange(4, 4 + len as int) =~= part@);
            assert(cur.subrange(4 + len as int, cur.len() as int) =~= plain@.subrange(
                next as int,
                plain@.len() as int,
            ));
            out.push(part);
            assert(out@.map_values(|v: Vec<u8>| v@) =~= before.map_values(|v: Vec<u8>| v@).push(
                part@,
            ));
            pos = next;
        }
    }
    proof {
        let cur = plain@.subrange(pos as int, plain@.len() as int);
        if !done {
            assert(multi_parts(cur) =~= seq![]);
        }
        assert(whole =~= out@.map_values(|v: Vec<u8>| v@));
        assert forall|i: int| 0 <= i < out@.len() implies (#[trigger] out@[i])@ == whole[i] by {
            assert(out@.map_values(|v: Vec<u8>| v@)[i] == out@[i]@);
        }
    }
    out
}

/// What `flate2::read::GzDecoder` reads from gzip data to its end; `None`
/// when that fails.
pub uninterp spec fn gunzipped(data: Seq<u8>) -> Option<Seq<u8>>;

/// Reads gzip data to its end through `flate2::read::GzDecoder`; the
/// result is named by [`gunzipped`].
#[verifier::external_body]
fn gunzip(data: &[u8]) -> (r: Option<Vec<u8>>)
    ensures
        match gunzipped(data@) {
            Some(d) => r matches Some(v) && v@ == d,
            None => r is None,
        },
{
    let mut out: Vec<u8> = Vec::new();
    flate2::read::GzDecoder::new(data).read_to_end(&mut out).ok()?;
    Some(out)
}

/// The body of a `Multi` message: gzip-compressed when it states an
/// unzipped size.
pub fn multi_payload(body: Vec<u8>, size_unzipped: Option<u32>) -> (r: Option<Vec<u8>>)
    ensures
        size_unzipped.unwrap_or(0) > 0 ==> match gunzipped(body@) {
            Some(d) => r matches Some(v) && v@ == d,
            None => r is None,
        },
        size_unzipped.unwrap_or(0) == 0 ==> (r matches Some(v) && v@ == body@),
{
    if size_unzipped.unwrap_or(0) > 0 {
        gunzip(body.as_slice())
    } else {
        Some(body)
    }
}

// ------------------------------------------------------------------
// Dispatch
// ------------------------------------------------------------------

/// How a received packet is handled.
#[derive(Debug, Clone, Copy, PartialEq, Eq)]
pub enum PacketKind {
    Multi,
    LogonResponse,
    LoggedOff,
    LicenseList,
    ServerUnavailable,
    /// Routed to the job waiting for it.
    Reply,
}

pub fn packet_kind(msg: u32) -> (r: PacketKind)
    ensures
        r == (if msg == emsg::MULTI {
            PacketKind::Multi
        } else if msg == emsg::CLIENT_LOG_ON_RESPONSE {
            PacketKind::LogonResponse
        } else if msg == emsg::CLIENT_LOGGED_OFF {
            PacketKind::LoggedOff
        } else if msg == emsg::CLIENT_LICENSE_LIST {
            PacketKind::LicenseList
        } else if msg == emsg::CLIENT_SERVER_UNAVAILABLE {
            PacketKind::ServerUnavailable
        } else {
            PacketKind::Reply
        }),
{
    if msg == emsg::MULTI {
        PacketKind::Multi
    } else if msg == emsg::CLIENT_LOG_ON_RESPONSE {
        PacketKind::LogonResponse
    } else if msg == emsg::CLIENT_LOGGED_OFF {
        PacketKind::LoggedOff
    } else if msg == emsg::CLIENT_LICENSE_LIST {
        PacketKind::LicenseList
    } else if msg == emsg::CLIENT_SERVER_UNAVAILABLE {
        PacketKind::ServerUnavailable
    } else {
        PacketKind::Reply
    }
}

/// Where a reply goes.
#[derive(Debug, Clone, Copy, PartialEq, Eq)]
pub enum Route {
    /// To the waiting job with this id.
    Job(u64),
    /// It names a job nobody waits for.
    NoWaiter(u64),
    /// It names no job and no waiting job expects its EMsg.
    Unrouted,
}

/// Some waiting job has this id.
pub open spec fn has_job(waiting: Seq<(u64, u32)>, job: u64) -> bool {
    exists|i: int| 0 <= i < waiting.len() && #[trigger] waiting[i].0 == job
}

/// The first waiting job, at or after `i`, that expects `msg`.
pub open spec fn first_expecting(waiting: Seq<(u64, u32)>, msg: u32, i: int) -> Option<int>
    decreases waiting.len() - i,
{
    if i < 0 || i >= waiting.len() {
        None
    } else if waiting[i].1 == msg {
        Some(i)
    } else {
        first_expecting(waiting, msg, i + 1)
    }
}

/// Routes a reply: by the job id it names; without one, to the first
/// waiting job (in the order given) that expects its EMsg.
pub fn route(target_job: u64, msg: u32, waiting: &Vec<(u64, u32)>) -> (r: Route)
    ensures
        target_job != JOBID_NONE ==> r == (if has_job(waiting@, target_job) {
            Route::Job(target_job)
        } else {
            Route::NoWaiter(target_job)
        }),
        target_job == JOBID_NONE ==> r == (match first_expecting(waiting@, msg, 0) {
            Some(i) => Route::Job(waiting@[i].0),
            None => Route::Unrouted,
        }),
{
    let mut i: usize = 0;
    if target_job != JOBID_NONE {
        while i < waiting.len()
            invariant
                i <= waiting@.len(),
                target_job != JOBID_NONE,
                forall|k: int| 0 <= k < i ==> (#[trigger] waiting@[k]).0 != target_job,
            decreases waiting@.len() - i,
        {
            if waiting[i].0 == target_job {
                assert(waiting@[i as int].0 == target_job);
                return Route::Job(target_job);
            }
            i = i + 1;
        }
        assert(!has_job(waiting@, target_job));
        return Route::NoWaiter(target_job);
    }
    while i < waiting.len()
        invariant
            i <= waiting@.len(),
            target_job == JOBID_NONE,
            first_expecting(waiting@, msg, 0) == first_expecting(waiting@, msg, i as int),
        decreases waiting@.len() - i,
    {
        if waiting[i].1 == msg {
            return Route::Job(waiting[i].0);
        }
        i = i + 1;
    }
    Route::Unrouted
}

/// The EMsg of a unified service call: the authenticated one once logged
/// on.
pub fn service_call_emsg(logged_on: bool) -> (r: u32)
    ensures
        r == (if logged_on {
            emsg::SERVICE_METHOD_CALL_FROM_CLIENT
        } else {
            emsg::SERVICE_METHOD_CALL_FROM_CLIENT_NONAUTHED
        }),
{
    if logged_on {
        emsg::SERVICE_METHOD_CALL_FROM_CLIENT
    } else {
        emsg::SERVICE_METHOD_CALL_FROM_CLIENT_NONAUTHED
    }
}

// ------------------------------------------------------------------
// Endpoints
// ------------------------------------------------------------------

/// The websocket endpoints of a CM directory reply: entries of type
/// `websockets` that name an endpoint, in order.
pub open spec fn websocket_entries(entries: Seq<(Option<String>, Option<String>)>) -> Seq<Seq<char>>
    decreases entries.len(),
{
    if entries.len() == 0 {
        seq![]
    } else {
        let rest = websocket_entries(entries.drop_last());
        let (ty, ep) = entries.last();
        let t = match ty {
            Some(t) => t@,
            None => seq![],
        };
        match ep {
            Some(e) => if t == "websockets"@ {
                rest.push(e@)
            } else {
                rest
            },
            None => rest,
        }
    }
}

pub open spec fn texts(v: Seq<String>) -> Seq<Seq<char>> {
    v.map_values(|s: String| s@)
}

pub fn websocket_endpoints(entries: &Vec<(Option<String>, Option<String>)>) -> (r: Vec<String>)
    ensures
        texts(r@) == websocket_entries(entries@),
{
    let mut out: Vec<String> = Vec::new();
    let mut i: usize = 0;
    assert(entries@.subrange(0, 0) =~= seq![]);
    assert(texts(out@) =~= seq![]);
    while i < entries.len()
        invariant
            i <= entries@.len(),
            texts(out@) == websocket_entries(entries@.subrange(0, i as int)),
        decreases entries@.len() - i,
    {
        assert(entries@.subrange(0, i + 1).drop_last() =~= entries@.subrange(0, i as int));
        let is_ws = match &entries[i].0 {
            Some(t) => string_eq_str(t, "websockets"),
            None => {
                proof {
                    reveal_strlit("websockets");
                    assert("websockets"@.len() == 10);
                    assert(Seq::<char>::empty() != "websockets"@);
                }
                false
            },
        };
        if is_ws {
            match &entries[i].1 {
                Some(e) => {
                    let ghost before = out@;
                    let c = e.clone();
                    out.push(c);
                    assert(texts(out@) =~= texts(before).push(c@));
                },
                None => {},
            }
        }
        i = i + 1;
    }
    assert(entries@.subrange(0, entries@.len() as int) =~= entries@);
    out
}

/// `wss://<endpoint>/cmsocket/`.
pub open spec fn socket_url_text(endpoint: Seq<char>) -> Seq<char> {
    "wss://"@ + endpoint + "/cmsocket/"@
}

pub fn cm_socket_url(endpoint: &str) -> (r: String)
    ensures
        r@ == socket_url_text(endpoint@),
{
    let mut cs = str_chars("wss://");
    let e = str_chars(endpoint);
    let t = str_chars("/cmsocket/");
    let ghost a = cs@;
    let mut i: usize = 0;
    while i < e.len()
        invariant
            i <= e@.len(),
            cs@ == a + e@.subrange(0, i as int),
        decreases e@.len() - i,
    {
        cs.push(e[i]);
        i = i + 1;
        assert(cs@ =~= a + e@.subrange(0, i as int));
    }
    let ghost b = cs@;
    let mut j: usize = 0;
    while j < t.len()
        invariant
            j <= t@.len(),
            cs@ == b + t@.subrange(0, j as int),
        decreases t@.len() - j,
    {
        cs.push(t[j]);
        j = j + 1;
        assert(cs@ =~= b + t@.subrange(0, j as int));
    }
    assert(e@.subrange(0, e@.len() as int) =~= e@);
    assert(t@.subrange(0, t@.len() as int) =~= t@);
    assert(cs@ =~= socket_url_text(endpoint@));
    string_from_chars(cs.as_slice())
}

/// The endpoints a connection attempt tries, in order: every one of them.
pub fn connect_candidates(endpoints: &Vec<String>) -> (r: Vec<String>)
    ensures
        texts(r@) == texts(endpoints@),
{
    let n = endpoints.len();
    let mut out: Vec<String> = Vec::new();
    let mut i: usize = 0;
    while i < n
        invariant
            i <= n <= endpoints@.len(),
            texts(out@) == texts(endpoints@).take(i as int),
        decreases n - i,
    {
        let c = endpoints[i].clone();
        let ghost before = out@;
        assert(c@ == texts(endpoints@)[i as int]);
        out.push(c);
        assert(texts(out@) =~= texts(before).push(c@));
        i = i + 1;
        assert(texts(out@) =~= texts(endpoints@).take(i as int));
    }
    assert(texts(endpoints@).take(n as int) =~= texts(endpoints@));
    out
}

/// `https://api.steampowered.com/ISteamDirectory/GetCMListForConnect/v1/?cellid=<cell>`.
pub open spec fn cm_list_url_text(cell_id: u32) -> Seq<char> {
    "https://api.steampowered.com/ISteamDirectory/GetCMListForConnect/v1/?cellid="@ + decimal(
        cell_id as nat,
    )
}

pub fn cm_list_url(cell_id: u32) -> (r: String)
    ensures
        r@ == cm_list_url_text(cell_id),
{
    let mut cs = str_chars("https://api.steampowered.com/ISteamDirectory/GetCMListForConnect/v1/?cellid=");
    let d = u64_decimal(cell_id as u64);
    let ghost a = cs@;
    let mut i: usize = 0;
    while i < d.len()
        invariant
            i <= d@.len(),
            cs@ == a + d@.subrange(0, i as int),
        decreases d@.len() - i,
    {
        cs.push(d[i]);
        i = i + 1;
        assert(cs@ =~= a + d@.subrange(0, i as int));
    }
    assert(d@.subrange(0, d@.len() as int) =~= d@);
    string_from_chars(cs.as_slice())
}

/// The bootstrap endpoints, in the order they are tried.
pub open spec fn fallback_endpoint_texts() -> Seq<Seq<char>> {
    seq![
        "cmp1-hkg1.steamserver.net:27024"@,
        "cmp3-hkg1.steamserver.net:27025"@,
        "cmp2-hkg1.steamserver.net:27025"@,
        "cmp1-hkg1.steamserver.net:27025"@,
        "cmp2-hkg1.steamserver.net:27018"@,
        "cmp3-hkg1.steamserver.net:27024"@,
        "cmp1-hkg1.steamserver.net:27023"@,
        "cmp3-hkg1.steamserver.net:27021"@,
        "cmp2-hkg1.steamserver.net:27019"@,
        "cmp3-hkg1.steamserver.net:27022"@,
        "cmp2-hkg1.steamserver.net:27021"@,
        "cmp3-hkg1.steamserver.net:27020"@,
        "cmp2-hkg1.steamserver.net:27023"@,
        "cmp1-hkg1.steamserver.net:27019"@,
        "cmp2-hkg1.steamserver.net:27022"@,
    ]
}

/// Bootstrap websocket CM endpoints used when the directory is
/// unreachable.
pub fn fallback_cm_endpoints() -> (r: Vec<String>)
    ensures
        texts(r@) == fallback_endpoint_texts(),
{
    let mut out: Vec<String> = Vec::new();
    out.push("cmp1-hkg1.steamserver.net:27024".to_owned());
    out.push("cmp3-hkg1.steamserver.net:27025".to_owned());
    out.push("cmp2-hkg1.steamserver.net:27025".to_owned());
    out.push("cmp1-hkg1.steamserver.net:27025".to_owned());
    out.push("cmp2-hkg1.steamserver.net:27018".to_owned());
    out.push("cmp3-hkg1.steamserver.net:27024".to_owned());
    out.push("cmp1-hkg1.steamserver.net:27023".to_owned());
    out.push("cmp3-hkg1.steamserver.net:27021".to_owned());
    out.push("cmp2-hkg1.steamserver.net:27019".to_owned());
    out.push("cmp3-hkg1.steamserver.net:27022".to_owned());
    out.push("cmp2-hkg1.steamserver.net:27021".to_owned());
    out.push("cmp3-hkg1.steamserver.net:27020".to_owned());
    out.push("cmp2-hkg1.steamserver.net:27023".to_owned());
    out.push("cmp1-hkg1.steamserver.net:27019".to_owned());
    out.push("cmp2-hkg1.steamserver.net:27022".to_owned());
    assert(texts(out@) =~= fallback_endpoint_texts());
    out
}

/// The endpoints to connect with: the cached ones when there are any.
pub fn cached_endpoints(cached: Option<Vec<String>>) -> (r: Option<Vec<String>>)
    ensures
        match cached {
            Some(v) => if v@.len() > 0 {
                r matches Some(w) && w@ == v@
            } else {
                r is None
            },
            None => r is None,
        },
{
    match cached {
        Some(v) => if v.len() > 0 {
            Some(v)
        } else {
            None
        },
        None => None,
    }
}

} // verus!
