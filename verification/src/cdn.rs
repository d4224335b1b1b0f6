//! Steam CDN (Steampipe): content server selection, URLs, auth-token
//! caching, depot keys, and the decryption, decompression and verification
//! of downloaded chunk payloads.

use std::io::Read;

use vstd::prelude::*;

use crate::crypto::{
    adler32, adler32_spec, aes256_cbc_decrypt, aes256_ecb_decrypt_block, first_block,
    symmetric_decrypt, tail_from, CryptoError,
};
use crate::kv::le_u32;
use crate::manifest::ChunkData;
use crate::msgs::{copy_range, eresult, push_all, read_u32_le};
use crate::text::{
    chars_eq_ignore_case, eq_ignore_case, str_chars, string_chars, string_eq_str,
    string_from_chars, u64_decimal, decimal,
};

verus! {

/// How a CDN request failed at the HTTP level.
#[derive(Debug, Clone, Copy, PartialEq, Eq)]
pub enum CdnError {
    /// 401 or 403: the request needs (another) auth token.
    Auth(u16),
    NotFound,
    Http(u16),
}

/// Whether a failed request asks for an auth token.
pub fn is_auth_error(e: &CdnError) -> (r: bool)
    ensures
        r == (*e is Auth),
{
    match e {
        CdnError::Auth(_) => true,
        _ => false,
    }
}

/// The classification of an HTTP status that is not a success.
pub fn status_error(status: u16) -> (r: CdnError)
    ensures
        r == (if status == 401 || status == 403 {
            CdnError::Auth(status)
        } else if status == 404 {
            CdnError::NotFound
        } else {
            CdnError::Http(status)
        }),
{
    if status == 401 || status == 403 {
        CdnError::Auth(status)
    } else if status == 404 {
        CdnError::NotFound
    } else {
        CdnError::Http(status)
    }
}

// ------------------------------------------------------------------
// URLs and tokens
// ------------------------------------------------------------------

/// A URL with a CDN auth token appended. Steam's tokens start with `?`
/// (`?auth_key=...`); bare tokens are joined with `&` or `?`.
pub open spec fn with_token(url: Seq<char>, token: Seq<char>) -> Seq<char> {
    if token.len() > 0 && token[0] == '?' {
        url + token
    } else if url.contains('?') {
        url + seq!['&'] + token
    } else {
        url + seq!['?'] + token
    }
}

fn has_char(s: &[char], c: char) -> (r: bool)
    ensures
        r == s@.contains(c),
{
    let mut i: usize = 0;
    while i < s.len()
        invariant
            i <= s@.len(),
            forall|k: int| 0 <= k < i ==> s@[k] != c,
        decreases s@.len() - i,
    {
        if s[i] == c {
            return true;
        }
        i = i + 1;
    }
    false
}

fn append_chars(out: &mut Vec<char>, cs: &[char])
    ensures
        final(out)@ == old(out)@ + cs@,
{
    let mut i: usize = 0;
    while i < cs.len()
        invariant
            i <= cs@.len(),
            out@ == old(out)@ + cs@.subrange(0, i as int),
        decreases cs@.len() - i,
    {
        out.push(cs[i]);
        i = i + 1;
        assert(out@ =~= old(out)@ + cs@.subrange(0, i as int));
    }
    assert(cs@.subrange(0, cs@.len() as int) =~= cs@);
}

/// Appends a CDN auth token to a URL.
pub fn append_token(url: &str, token: &str) -> (r: String)
    ensures
        r@ == with_token(url@, token@),
{
    let u = str_chars(url);
    let t = str_chars(token);
    let mut out: Vec<char> = Vec::new();
    append_chars(&mut out, u.as_slice());
    if t.len() > 0 && t[0] == '?' {
    } else if has_char(u.as_slice(), '?') {
        out.push('&');
    } else {
        out.push('?');
    }
    append_chars(&mut out, t.as_slice());
    assert(out@ =~= with_token(url@, token@));
    string_from_chars(out.as_slice())
}

// ------------------------------------------------------------------
// Content servers
// ------------------------------------------------------------------

/// The fields of a `CContentServerDirectory_ServerInfo` entry that server
/// selection reads (its weighted load is a float and stays with the caller).
#[derive(Debug, Clone, PartialEq, Eq)]
pub struct ServerInfo {
    pub server_type: Option<String>,
    pub host: Option<String>,
    pub vhost: Option<String>,
    pub https_support: Option<String>,
    pub cell_id: Option<i32>,
    pub num_entries_in_client_list: Option<i32>,
    pub allowed_app_ids: Vec<u32>,
    pub use_as_proxy: Option<bool>,
    pub steam_china_only: Option<bool>,
}

#[derive(Debug, Clone)]
pub struct CdnServer {
    pub host: String,
    pub vhost: String,
    pub https: bool,
    pub server_type: String,
    pub cell_id: i32,
    pub num_entries: i32,
    pub allowed_app_ids: Vec<u32>,
    pub use_as_proxy: bool,
    pub steam_china_only: bool,
}

pub open spec fn text_or_empty(o: Option<String>) -> Seq<char> {
    match o {
        Some(s) => s@,
        None => seq![],
    }
}

/// A server is used for an app when it is a CDN or SteamCache server and
/// either serves every app or lists this one.
pub open spec fn eligible(info: ServerInfo, app_id: u32) -> bool {
    let ty = text_or_empty(info.server_type);
    (ty == "SteamCache"@ || ty == "CDN"@) && (info.allowed_app_ids@.len() == 0
        || info.allowed_app_ids@.contains(app_id))
}

pub fn server_eligible(info: &ServerInfo, app_id: u32) -> (r: bool)
    ensures
        r == eligible(*info, app_id),
{
    let ty_ok = match &info.server_type {
        Some(t) => string_eq_str(t, "SteamCache") || string_eq_str(t, "CDN"),
        None => false,
    };
    proof {
        reveal_strlit("SteamCache");
        reveal_strlit("CDN");
        assert("SteamCache"@.len() == 10);
        assert("CDN"@.len() == 3);
        assert(Seq::<char>::empty() != "SteamCache"@);
    }
    if !ty_ok {
        return false;
    }
    if info.allowed_app_ids.len() == 0 {
        return true;
    }
    let mut i: usize = 0;
    while i < info.allowed_app_ids.len()
        invariant
            i <= info.allowed_app_ids@.len(),
            text_or_empty(info.server_type) == "SteamCache"@ || text_or_empty(info.server_type)
                == "CDN"@,
            forall|k: int| 0 <= k < i ==> info.allowed_app_ids@[k] != app_id,
        decreases info.allowed_app_ids@.len() - i,
    {
        if info.allowed_app_ids[i] == app_id {
            assert(info.allowed_app_ids@[i as int] == app_id);
            return true;
        }
        i = i + 1;
    }
    false
}

fn text_or_new(o: &Option<String>) -> (r: String)
    ensures
        r@ == text_or_empty(*o),
{
    match o {
        Some(s) => s.clone(),
        None => String::new(),
    }
}

fn copy_ids(v: &Vec<u32>) -> (r: Vec<u32>)
    ensures
        r@ == v@,
{
    let mut out: Vec<u32> = Vec::new();
    let mut i: usize = 0;
    while i < v.len()
        invariant
            i <= v@.len(),
            out@ == v@.subrange(0, i as int),
        decreases v@.len() - i,
    {
        out.push(v[i]);
        i = i + 1;
        assert(out@ =~= v@.subrange(0, i as int));
    }
    assert(v@.subrange(0, v@.len() as int) =~= v@);
    out
}

/// The server described by a directory entry: HTTPS when the entry says
/// it is mandatory, the host as virtual host when none is given, and at
/// least one client-list entry.
pub fn server_from_info(info: &ServerInfo) -> (r: CdnServer)
    ensures
        r.host@ == text_or_empty(info.host),
        r.vhost@ == (match info.vhost {
            Some(v) => v@,
            None => text_or_empty(info.host),
        }),
        r.https == (info.https_support matches Some(h) && h@ == "mandatory"@),
        r.server_type@ == text_or_empty(info.server_type),
        r.cell_id == info.cell_id.unwrap_or(0),
        r.num_entries == (if info.num_entries_in_client_list.unwrap_or(1) < 1 {
            1
        } else {
            info.num_entries_in_client_list.unwrap_or(1)
        }),
        r.allowed_app_ids@ == info.allowed_app_ids@,
        r.use_as_proxy == info.use_as_proxy.unwrap_or(false),
        r.steam_china_only == info.steam_china_only.unwrap_or(false),
{
    let https = match &info.https_support {
        Some(h) => string_eq_str(h, "mandatory"),
        None => false,
    };
    let host = text_or_new(&info.host);
    let vhost = match &info.vhost {
        Some(v) => v.clone(),
        None => host.clone(),
    };
    let n = info.num_entries_in_client_list.unwrap_or(1);
    CdnServer {
        host,
        vhost,
        https,
        server_type: text_or_new(&info.server_type),
        cell_id: info.cell_id.unwrap_or(0),
        num_entries: if n < 1 {
            1
        } else {
            n
        },
        allowed_app_ids: copy_ids(&info.allowed_app_ids),
        use_as_proxy: info.use_as_proxy.unwrap_or(false),
        steam_china_only: info.steam_china_only.unwrap_or(false),
    }
}

pub open spec fn scheme_text(https: bool) -> Seq<char> {
    if https {
        seq!['h', 't', 't', 'p', 's']
    } else {
        seq!['h', 't', 't', 'p']
    }
}

/// `scheme://vhost:port`.
pub open spec fn base_url_text(https: bool, vhost: Seq<char>) -> Seq<char> {
    scheme_text(https) + seq![':', '/', '/'] + vhost + seq![':'] + decimal(
        if https {
            443nat
        } else {
            80nat
        },
    )
}

/// `base/depot/<depot>/manifest/<manifest>/5/<request code>`.
pub open spec fn manifest_url_text(
    base: Seq<char>,
    depot_id: u32,
    manifest_id: u64,
    request_code: u64,
) -> Seq<char> {
    base + "/depot/"@ + decimal(depot_id as nat) + "/manifest/"@ + decimal(manifest_id as nat)
        + "/5/"@ + decimal(request_code as nat)
}

/// `base/depot/<depot>/chunk/<chunk id>`.
pub open spec fn chunk_url_text(base: Seq<char>, depot_id: u32, chunk_id: Seq<char>) -> Seq<char> {
    base + "/depot/"@ + decimal(depot_id as nat) + "/chunk/"@ + chunk_id
}

impl CdnServer {
    pub fn port(&self) -> (r: u16)
        ensures
            r == (if self.https {
                443u16
            } else {
                80u16
            }),
    {
        if self.https {
            443
        } else {
            80
        }
    }

    pub fn base_url(&self) -> (r: String)
        ensures
            r@ == base_url_text(self.https, self.vhost@),
    {
        let mut out: Vec<char> = Vec::new();
        out.push('h');
        out.push('t');
        out.push('t');
        out.push('p');
        if self.https {
            out.push('s');
        }
        out.push(':');
        out.push('/');
        out.push('/');
        let v = string_chars(&self.vhost);
        append_chars(&mut out, v.as_slice());
        out.push(':');
        let p = u64_decimal(self.port() as u64);
        append_chars(&mut out, p.as_slice());
        assert(out@ =~= base_url_text(self.https, self.vhost@));
        string_from_chars(out.as_slice())
    }

    /// The URL of a manifest on this server.
    pub fn manifest_url(&self, depot_id: u32, manifest_id: u64, request_code: u64) -> (r: String)
        ensures
            r@ == manifest_url_text(
                base_url_text(self.https, self.vhost@),
                depot_id,
                manifest_id,
                request_code,
            ),
    {
        let base = self.base_url();
        let mut out = string_chars(&base);
        let a = str_chars("/depot/");
        let b = str_chars("/manifest/");
        let c = str_chars("/5/");
        append_chars(&mut out, a.as_slice());
        append_chars(&mut out, u64_decimal(depot_id as u64).as_slice());
        append_chars(&mut out, b.as_slice());
        append_chars(&mut out, u64_decimal(manifest_id).as_slice());
        append_chars(&mut out, c.as_slice());
        append_chars(&mut out, u64_decimal(request_code).as_slice());
        assert(out@ =~= manifest_url_text(base@, depot_id, manifest_id, request_code));
        string_from_chars(out.as_slice())
    }

    /// The URL of a chunk on this server.
    pub fn chunk_url(&self, depot_id: u32, chunk_id: &str) -> (r: String)
        ensures
            r@ == chunk_url_text(base_url_text(self.https, self.vhost@), depot_id, chunk_id@),
    {
        let base = self.base_url();
        let mut out = string_chars(&base);
        let a = str_chars("/depot/");
        let b = str_chars("/chunk/");
        append_chars(&mut out, a.as_slice());
        append_chars(&mut out, u64_decimal(depot_id as u64).as_slice());
        append_chars(&mut out, b.as_slice());
        append_chars(&mut out, str_chars(chunk_id).as_slice());
        assert(out@ =~= chunk_url_text(base@, depot_id, chunk_id@));
        string_from_chars(out.as_slice())
    }
}

// ------------------------------------------------------------------
// Replies of the content server directory
// ------------------------------------------------------------------

/// The branch sent with a manifest request code request: none for the
/// public branch (in any letter case).
pub fn manifest_branch(branch: &str) -> (r: Option<String>)
    ensures
        eq_ignore_case(branch@, "public"@) ==> r is None,
        !eq_ignore_case(branch@, "public"@) ==> (r matches Some(b) && b@ == branch@),
{
    let b = str_chars(branch);
    let p = str_chars("public");
    if chars_eq_ignore_case(b.as_slice(), p.as_slice()) {
        None
    } else {
        Some(string_from_chars(b.as_slice()))
    }
}

/// The manifest request code from a reply: zero when the request failed
/// (old manifests may be blocked) or the code is absent.
pub fn request_code_from_reply(result: i32, code: Option<u64>) -> (r: u64)
    ensures
        r == (if result != eresult::OK {
            0
        } else {
            code.unwrap_or(0)
        }),
{
    if result != eresult::OK {
        0
    } else {
        code.unwrap_or(0)
    }
}

/// Why a depot key could not be had.
#[derive(Debug, Clone, Copy, PartialEq, Eq)]
pub enum DepotKeyError {
    /// Steam answered with this result code.
    Refused(i32),
    /// The key is missing or not 32 bytes long.
    Missing,
}

/// The depot key from a `ClientGetDepotDecryptionKeyResponse`: the result
/// (failure when absent) must be OK and the key 32 bytes long.
pub fn depot_key_from_reply(eresult: Option<i32>, key: Option<Vec<u8>>) -> (r: Result<
    Vec<u8>,
    DepotKeyError,
>)
    ensures
        eresult.unwrap_or(eresult::FAIL) != eresult::OK ==> r == Err::<Vec<u8>, DepotKeyError>(
            DepotKeyError::Refused(eresult.unwrap_or(eresult::FAIL)),
        ),
        eresult.unwrap_or(eresult::FAIL) == eresult::OK ==> match key {
            Some(k) => if k@.len() == 32 {
                r matches Ok(v) && v@ == k@
            } else {
                r == Err::<Vec<u8>, DepotKeyError>(DepotKeyError::Missing)
            },
            None => r == Err::<Vec<u8>, DepotKeyError>(DepotKeyError::Missing),
        },
{
    let result = eresult.unwrap_or(eresult::FAIL);
    if result != eresult::OK {
        return Err(DepotKeyError::Refused(result));
    }
    match key {
        Some(k) => if k.len() == 32 {
            Ok(k)
        } else {
            Err(DepotKeyError::Missing)
        },
        None => Err(DepotKeyError::Missing),
    }
}

// ------------------------------------------------------------------
// Chunk payloads
// ------------------------------------------------------------------

/// Why a downloaded payload could not be turned into chunk data.
#[derive(Debug, Clone, Copy, PartialEq, Eq)]
pub enum PayloadError {
    /// The encrypted payload is not a positive multiple of 16 bytes.
    Length(usize),
    Crypto(CryptoError),
    /// Fewer than four bytes after decryption.
    TooShort,
    /// The first four decrypted bytes name no known compression.
    UnknownFormat(u8, u8, u8, u8),
    VzstdTooShort,
    VzstdMagic,
    VzstdFooter,
    Zstd,
    VzstdSize,
    VzipTooShort,
    VzipMagic,
    VzipFooter,
    Lzma,
    VzipSize(u32, usize),
    ZipOpen,
    /// The archive does not hold exactly one entry.
    ZipEntryCount(usize),
    ZipRead,
    /// Decompressed length differs from the manifest's.
    SizeMismatch(u32, usize),
    /// Adler-32 differs from the manifest's checksum.
    ChecksumMismatch(u32, u32),
}

/// The frames a zstd stream decodes to, as `zstd::stream::decode_all`
/// gives them; `None` when it fails.
pub uninterp spec fn zstd_decoded(frame: Seq<u8>) -> Option<Seq<u8>>;

/// What `lzma_rs::lzma_decompress` writes for an `.lzma`-alone stream;
/// `None` when it fails.
pub uninterp spec fn lzma_decoded(packed: Seq<u8>) -> Option<Seq<u8>>;

/// The entries that `zip::ZipArchive::new` finds in an in-memory archive
/// (each entry's bytes, or `None` when it cannot be read); `None` when the
/// archive is not accepted.
pub uninterp spec fn zip_archive_of(data: Seq<u8>) -> Option<Seq<Option<Seq<u8>>>>;

#[verifier::external_type_specification]
#[verifier::external_body]
#[verifier::reject_recursive_types(T)]
pub struct ExCursor<T>(std::io::Cursor<T>);

#[verifier::external_type_specification]
#[verifier::external_body]
#[verifier::reject_recursive_types(R)]
pub struct ExZipArchive<R>(zip::ZipArchive<R>);

/// The entries an open archive holds, in central-directory order.
pub uninterp spec fn zip_entries(archive: zip::ZipArchive<std::io::Cursor<Vec<u8>>>) -> Seq<
    Option<Seq<u8>>,
>;

/// Calls `zstd::stream::decode_all`; the result is named by
/// [`zstd_decoded`].
#[verifier::external_body]
fn zstd_decode_all(frame: &[u8]) -> (r: Option<Vec<u8>>)
    ensures
        match zstd_decoded(frame@) {
            Some(d) => r matches Some(v) && v@ == d,
            None => r is None,
        },
{
    zstd::stream::decode_all(frame).ok()
}

/// Calls `lzma_rs::lzma_decompress` into a fresh vector; the result is
/// named by [`lzma_decoded`].
#[verifier::external_body]
fn lzma_decompress(packed: &[u8]) -> (r: Option<Vec<u8>>)
    ensures
        match lzma_decoded(packed@) {
            Some(d) => r matches Some(v) && v@ == d,
            None => r is None,
        },
{
    let mut out: Vec<u8> = Vec::new();
    let mut cursor = std::io::Cursor::new(packed);
    lzma_rs::lzma_decompress(&mut cursor, &mut out).ok()?;
    Some(out)
}

/// Calls `zip::ZipArchive::new` on a copy of the bytes; what it accepts and
/// the entries it lists are named by [`zip_archive_of`].
#[verifier::external_body]
fn zip_open(data: &[u8]) -> (r: Option<zip::ZipArchive<std::io::Cursor<Vec<u8>>>>)
    ensures
        match zip_archive_of(data@) {
            Some(es) => r matches Some(a) && zip_entries(a) == es,
            None => r is None,
        },
{
    zip::ZipArchive::new(std::io::Cursor::new(data.to_vec())).ok()
}

/// Calls `zip::ZipArchive::len`: the number of entries.
#[verifier::external_body]
fn zip_len(archive: &zip::ZipArchive<std::io::Cursor<Vec<u8>>>) -> (r: usize)
    ensures
        r == zip_entries(*archive).len(),
{
    archive.len()
}

/// Calls `zip::ZipArchive::by_index` and reads the entry to its end; the
/// archive keeps its entries.
#[verifier::external_body]
fn zip_read(archive: &mut zip::ZipArchive<std::io::Cursor<Vec<u8>>>, index: usize) -> (r: Option<
    Vec<u8>,
>)
    requires
        index < zip_entries(*old(archive)).len(),
    ensures
        zip_entries(*final(archive)) == zip_entries(*old(archive)),
        match zip_entries(*old(archive))[index as int] {
            Some(d) => r matches Some(v) && v@ == d,
            None => r is None,
        },
{
    let mut entry = archive.by_index(index).ok()?;
    let mut out: Vec<u8> = Vec::new();
    entry.read_to_end(&mut out).ok()?;
    Some(out)
}

/// The one entry of a single-entry ZIP archive.
pub open spec fn zip_single(data: Seq<u8>) -> Result<Seq<u8>, PayloadError> {
    match zip_archive_of(data) {
        None => Err(PayloadError::ZipOpen),
        Some(es) => if es.len() != 1 {
            Err(PayloadError::ZipEntryCount(es.len() as usize))
        } else {
            match es[0] {
                Some(d) => Ok(d),
                None => Err(PayloadError::ZipRead),
            }
        },
    }
}

/// Plain ZIP with a single entry (newer chunk payloads, manifests).
pub fn unzip_single(data: &[u8]) -> (r: Result<Vec<u8>, PayloadError>)
    ensures
        match zip_single(data@) {
            Ok(d) => r matches Ok(v) && v@ == d,
            Err(e) => r == Err::<Vec<u8>, PayloadError>(e),
        },
{
    let mut archive = match zip_open(data) {
        Some(a) => a,
        None => {
            return Err(PayloadError::ZipOpen);
        },
    };
    let n = zip_len(&archive);
    if n != 1 {
        return Err(PayloadError::ZipEntryCount(n));
    }
    match zip_read(&mut archive, 0) {
        Some(v) => Ok(v),
        None => Err(PayloadError::ZipRead),
    }
}

pub open spec fn le_u16(d: Seq<u8>, p: int) -> int {
    d[p] + d[p + 1] * 256
}

/// Little-endian bytes of a `u64`.
pub open spec fn u64_le_bytes(x: u64) -> Seq<u8> {
    Seq::new(8, |i: int| ((x as int / pow256(i)) % 256) as u8)
}

pub open spec fn pow256(i: int) -> int
    decreases i,
{
    if i <= 0 {
        1
    } else {
        256 * pow256(i - 1)
    }
}

/// vZstd: magic(4) + crc(4) + zstd frame + footer: crc(4), size(4), "zsv", two more bytes.
pub open spec fn vzstd_spec(d: Seq<u8>) -> Result<Seq<u8>, PayloadError> {
    let n = d.len() as int;
    if n < 23 {
        Err(PayloadError::VzstdTooShort)
    } else if le_u32(d, 0) != 0x615A5356 {
        Err(PayloadError::VzstdMagic)
    } else if !(d[n - 3] == 0x7A && d[n - 2] == 0x73 && d[n - 1] == 0x76) {
        Err(PayloadError::VzstdFooter)
    } else {
        match zstd_decoded(d.subrange(8, n - 15)) {
            None => Err(PayloadError::Zstd),
            Some(out) => if out.len() != le_u32(d, n - 11) {
                Err(PayloadError::VzstdSize)
            } else {
                Ok(out)
            },
        }
    }
}

/// VZip (LZMA): "VZa", a u32, LZMA properties(5), the stream, crc(4), size(4), "zv".
/// The stream is re-packed in the `.lzma`-alone layout: properties, the
/// size as a little-endian u64, the stream.
pub open spec fn vzip_spec(d: Seq<u8>) -> Result<Seq<u8>, PayloadError> {
    let n = d.len() as int;
    if n < 22 {
        Err(PayloadError::VzipTooShort)
    } else if le_u16(d, 0) != 0x5A56 || d[2] != 0x61 {
        Err(PayloadError::VzipMagic)
    } else if le_u16(d, n - 2) != 0x767A {
        Err(PayloadError::VzipFooter)
    } else {
        let size = le_u32(d, n - 6);
        let packed = d.subrange(7, 12) + u64_le_bytes(size as u64) + d.subrange(12, n - 10);
        match lzma_decoded(packed) {
            None => Err(PayloadError::Lzma),
            Some(out) => if out.len() != size {
                Err(PayloadError::VzipSize(size as u32, out.len() as usize))
            } else {
                Ok(out)
            },
        }
    }
}

/// Decompression by the payload's leading magic.
pub open spec fn decompress_spec(d: Seq<u8>) -> Result<Seq<u8>, PayloadError> {
    if d.len() < 4 {
        Err(PayloadError::TooShort)
    } else if d[0] == 0x56 && d[1] == 0x53 && d[2] == 0x5A && d[3] == 0x61 {
        vzstd_spec(d)
    } else if d[0] == 0x56 && d[1] == 0x5A && d[2] == 0x61 {
        vzip_spec(d)
    } else if d[0] == 0x50 && d[1] == 0x4B && d[2] == 0x03 && d[3] == 0x04 {
        zip_single(d)
    } else {
        Err(PayloadError::UnknownFormat(d[0], d[1], d[2], d[3]))
    }
}

/// The chunk data a downloaded payload holds: decrypted with the depot
/// key, decompressed, and checked against the manifest's length and
/// Adler-32.
pub open spec fn chunk_payload(
    expected_len: u32,
    checksum: u32,
    data: Seq<u8>,
    key: Seq<u8>,
) -> Result<Seq<u8>, PayloadError> {
    if data.len() < 16 || data.len() % 16 != 0 {
        Err(PayloadError::Length(data.len() as usize))
    } else {
        match symmetric_decrypt(key, data) {
            None => Err(PayloadError::Crypto(CryptoError::Decrypt)),
            Some(plain) => match decompress_spec(plain) {
                Err(e) => Err(e),
                Ok(out) => if out.len() != expected_len {
                    Err(PayloadError::SizeMismatch(expected_len, out.len() as usize))
                } else if adler32_spec(out) != checksum {
                    Err(PayloadError::ChecksumMismatch(checksum, adler32_spec(out)))
                } else {
                    Ok(out)
                },
            },
        }
    }
}

/// Chunk data is handed on only when it has the length and the Adler-32
/// checksum the manifest gives for the chunk; written to disk, it therefore
/// passes the resume check of `engine::chunk_needed`.
pub proof fn lemma_accepted_chunk_checked(
    expected_len: u32,
    checksum: u32,
    data: Seq<u8>,
    key: Seq<u8>,
)
    ensures
        chunk_payload(expected_len, checksum, data, key) matches Ok(out) ==> out.len()
            == expected_len && adler32_spec(out) == checksum,
{
}

fn read_u16_le(d: &[u8], p: usize) -> (r: u16)
    requires
        p + 2 <= d@.len(),
    ensures
        r == le_u16(d@, p as int),
{
    d[p] as u16 + d[p + 1] as u16 * 256
}

fn push_u64_le(out: &mut Vec<u8>, x: u64)
    ensures
        final(out)@ == old(out)@ + u64_le_bytes(x),
{
    let ghost start = out@;
    let mut v = x;
    let mut i: usize = 0;
    while i < 8
        invariant
            i <= 8,
            out@.len() == start.len() + i,
            out@.subrange(0, start.len() as int) == start,
            v as int == x as int / pow256(i as int),
            forall|k: int| 0 <= k < i ==> out@[start.len() + k] == u64_le_bytes(x)[k],
        decreases 8 - i,
    {
        proof {
            assert(pow256(i + 1) == 256 * pow256(i as int));
            assert(pow256(i as int) > 0) by {
                lemma_pow256_positive(i as int);
            }
            vstd::arithmetic::div_mod::lemma_div_denominator(x as int, pow256(i as int), 256);
        }
        out.push((v % 256) as u8);
        v = v / 256;
        i = i + 1;
    }
    assert(out@ =~= start + u64_le_bytes(x));
}

proof fn lemma_pow256_positive(i: int)
    ensures
        pow256(i) > 0,
    decreases i,
{
    if i > 0 {
        lemma_pow256_positive(i - 1);
    }
}

fn vzstd_decompress(d: &[u8]) -> (r: Result<Vec<u8>, PayloadError>)
    ensures
        match vzstd_spec(d@) {
            Ok(v) => r matches Ok(o) && o@ == v,
            Err(e) => r == Err::<Vec<u8>, PayloadError>(e),
        },
{
    let n = d.len();
    if n < 23 {
        return Err(PayloadError::VzstdTooShort);
    }
    if read_u32_le(d, 0) != 0x615A5356 {
        return Err(PayloadError::VzstdMagic);
    }
    if !(d[n - 3] == 0x7A && d[n - 2] == 0x73 && d[n - 1] == 0x76) {
        return Err(PayloadError::VzstdFooter);
    }
    let size = read_u32_le(d, n - 11);
    let frame = copy_range(d, 8, n - 15);
    match zstd_decode_all(frame.as_slice()) {
        None => Err(PayloadError::Zstd),
        Some(out) => if out.len() as u64 != size as u64 {
            Err(PayloadError::VzstdSize)
        } else {
            Ok(out)
        },
    }
}

fn vzip_decompress(d: &[u8]) -> (r: Result<Vec<u8>, PayloadError>)
    ensures
        match vzip_spec(d@) {
            Ok(v) => r matches Ok(o) && o@ == v,
            Err(e) => r == Err::<Vec<u8>, PayloadError>(e),
        },
{
    let n = d.len();
    if n < 22 {
        return Err(PayloadError::VzipTooShort);
    }
    if read_u16_le(d, 0) != 0x5A56 || d[2] != 0x61 {
        return Err(PayloadError::VzipMagic);
    }
    if read_u16_le(d, n - 2) != 0x767A {
        return Err(PayloadError::VzipFooter);
    }
    let size = read_u32_le(d, n - 6);
    let props = copy_range(d, 7, 12);
    let stream = copy_range(d, 12, n - 10);
    let mut packed: Vec<u8> = Vec::new();
    push_all(&mut packed, props.as_slice());
    push_u64_le(&mut packed, size as u64);
    push_all(&mut packed, stream.as_slice());
    match lzma_decompress(packed.as_slice()) {
        None => Err(PayloadError::Lzma),
        Some(out) => if out.len() as u64 != size as u64 {
            Err(PayloadError::VzipSize(size, out.len()))
        } else {
            Ok(out)
        },
    }
}

fn decompress(d: &[u8]) -> (r: Result<Vec<u8>, PayloadError>)
    ensures
        match decompress_spec(d@) {
            Ok(v) => r matches Ok(o) && o@ == v,
            Err(e) => r == Err::<Vec<u8>, PayloadError>(e),
        },
{
    if d.len() < 4 {
        return Err(PayloadError::TooShort);
    }
    if d[0] == 0x56 && d[1] == 0x53 && d[2] == 0x5A && d[3] == 0x61 {
        vzstd_decompress(d)
    } else if d[0] == 0x56 && d[1] == 0x5A && d[2] == 0x61 {
        vzip_decompress(d)
    } else if d[0] == 0x50 && d[1] == 0x4B && d[2] == 0x03 && d[3] == 0x04 {
        unzip_single(d)
    } else {
        Err(PayloadError::UnknownFormat(d[0], d[1], d[2], d[3]))
    }
}

/// Decrypts, decompresses and verifies a downloaded chunk payload.
pub fn process_chunk(chunk: &ChunkData, data: &[u8], depot_key: &[u8]) -> (r: Result<
    Vec<u8>,
    PayloadError,
>)
    requires
        depot_key@.len() == 32 || data@.len() < 16 || data@.len() % 16 != 0,
    ensures
        match chunk_payload(chunk.uncompressed_len, chunk.checksum, data@, depot_key@) {
            Ok(v) => r matches Ok(o) && o@ == v,
            Err(e) => r == Err::<Vec<u8>, PayloadError>(e),
        },
{
    if data.len() < 16 || data.len() % 16 != 0 {
        return Err(PayloadError::Length(data.len()));
    }
    let iv = aes256_ecb_decrypt_block(depot_key, &first_block(data));
    let body = tail_from(data, 16);
    let plain = match aes256_cbc_decrypt(depot_key, &iv, body.as_slice()) {
        Ok(p) => p,
        Err(e) => {
            return Err(PayloadError::Crypto(e));
        },
    };
    let out = match decompress(plain.as_slice()) {
        Ok(o) => o,
        Err(e) => {
            return Err(e);
        },
    };
    if out.len() as u64 != chunk.uncompressed_len as u64 {
        return Err(PayloadError::SizeMismatch(chunk.uncompressed_len, out.len()));
    }
    let crc = adler32(out.as_slice());
    if crc != chunk.checksum {
        return Err(PayloadError::ChecksumMismatch(chunk.checksum, crc));
    }
    Ok(out)
}

// ------------------------------------------------------------------
// Byte sink
// ------------------------------------------------------------------

#[verifier::external_type_specification]
#[verifier::external_body]
pub struct ExIoError(std::io::Error);

/// Writes bytes into a `Vec` sink.
pub struct VecSink<'a>(pub &'a mut Vec<u8>);

impl<'a> std::io::Write for VecSink<'a> {
    fn write(&mut self, buf: &[u8]) -> (r: std::io::Result<usize>)
        ensures
            (*final(self).0)@ == (*old(self).0)@ + buf@,
            r matches Ok(n) && n == buf@.len(),
    {
        self.0.extend_from_slice(buf);
        Ok(buf.len())
    }

    fn flush(&mut self) -> (r: std::io::Result<()>)
        ensures
            (*final(self).0)@ == (*old(self).0)@,
            r is Ok,
    {
        Ok(())
    }
}

// ------------------------------------------------------------------
// CDN auth tokens
// ------------------------------------------------------------------

#[verifier::external_type_specification]
#[verifier::external_body]
#[verifier::reject_recursive_types(K)]
#[verifier::reject_recursive_types(V)]
#[verifier::reject_recursive_types(S)]
pub struct ExDashMap<K, V, S>(dashmap::DashMap<K, V, S>);

/// What a token map holds: (token, expiry) by (depot, host).
pub uninterp spec fn token_entries(m: dashmap::DashMap<(u32, String), (String, u64)>) -> Map<
    (u32, Seq<char>),
    (Seq<char>, u64),
>;

/// What a failure map holds: a count by host.
pub uninterp spec fn failure_counts(m: dashmap::DashMap<String, u32>) -> Map<Seq<char>, u32>;

/// `DashMap::new`: an empty map.
#[verifier::external_body]
fn token_map_new() -> (r: dashmap::DashMap<(u32, String), (String, u64)>)
    ensures
        ({
            let made = r;
            token_entries(made) == Map::<(u32, Seq<char>), (Seq<char>, u64)>::empty()
        }),
{
    dashmap::DashMap::new()
}

/// `DashMap::get`, the value cloned out: the entry held for `(depot_id,
/// host)`, if any.
#[verifier::external_body]
fn token_map_get(m: &dashmap::DashMap<(u32, String), (String, u64)>, depot_id: u32, host: &str) -> (r:
    Option<(String, u64)>)
    ensures
        match r {
            Some(v) => token_entries(*m).contains_key((depot_id, host@)) && token_entries(*m)[(
                depot_id,
                host@,
            )] == (v.0@, v.1),
            None => !token_entries(*m).contains_key((depot_id, host@)),
        },
{
    match m.get(&(depot_id, host.to_string())) {
        Some(entry) => Some(entry.value().clone()),
        None => None,
    }
}

/// `DashMap::insert`: the entry for the key is set, replacing any held.
#[verifier::external_body]
fn token_map_insert(
    m: &mut dashmap::DashMap<(u32, String), (String, u64)>,
    depot_id: u32,
    host: String,
    token: String,
    expiry: u64,
)
    ensures
        token_entries(*final(m)) == token_entries(*old(m)).insert((depot_id, host@), (token@, expiry)),
{
    m.insert((depot_id, host), (token, expiry));
}

/// `DashMap::new`: an empty map.
#[verifier::external_body]
fn failure_map_new() -> (r: dashmap::DashMap<String, u32>)
    ensures
        ({
            let made = r;
            failure_counts(made) == Map::<Seq<char>, u32>::empty()
        }),
{
    dashmap::DashMap::new()
}

/// `DashMap::get`, the value copied out: the count held for a host, if any.
#[verifier::external_body]
fn failure_map_get(m: &dashmap::DashMap<String, u32>, host: &str) -> (r: Option<u32>)
    ensures
        match r {
            Some(n) => failure_counts(*m).contains_key(host@) && failure_counts(*m)[host@] == n,
            None => !failure_counts(*m).contains_key(host@),
        },
{
    match m.get(host) {
        Some(entry) => Some(*entry.value()),
        None => None,
    }
}

/// `DashMap::insert`: the count for the host is set, replacing any held.
#[verifier::external_body]
fn failure_map_insert(m: &mut dashmap::DashMap<String, u32>, host: String, count: u32)
    ensures
        failure_counts(*final(m)) == failure_counts(*old(m)).insert(host@, count),
{
    m.insert(host, count);
}

/// `DashMap::remove`: the host's count is gone.
#[verifier::external_body]
fn failure_map_remove(m: &mut dashmap::DashMap<String, u32>, host: &str)
    ensures
        failure_counts(*final(m)) == failure_counts(*old(m)).remove(host@),
{
    m.remove(host);
}

/// A token is used while it has no expiry or expires more than 30 seconds
/// from now.
pub open spec fn token_usable(expiry: u64, now: u64) -> bool {
    expiry == 0 || expiry > now + 30
}

/// What a lookup gives: the cached token for the key while it is usable.
pub open spec fn token_lookup(
    m: Map<(u32, Seq<char>), (Seq<char>, u64)>,
    key: (u32, Seq<char>),
    now: u64,
) -> Option<Seq<char>> {
    if m.contains_key(key) && token_usable(m[key].1, now) {
        Some(m[key].0)
    } else {
        None
    }
}

/// CDN auth tokens cached per depot and host, with their expiry (Unix
/// seconds; zero for none).
pub struct TokenCache {
    tokens: dashmap::DashMap<(u32, String), (String, u64)>,
}

impl TokenCache {
    /// The tokens held, by depot and host.
    pub closed spec fn view_map(&self) -> Map<(u32, Seq<char>), (Seq<char>, u64)> {
        token_entries(self.tokens)
    }

    pub fn new() -> (r: TokenCache)
        ensures
            r.view_map() == Map::<(u32, Seq<char>), (Seq<char>, u64)>::empty(),
    {
        TokenCache { tokens: token_map_new() }
    }

    /// The cached token for a depot on a host while it is usable at `now`.
    pub fn lookup(&self, depot_id: u32, host: &str, now: u64) -> (r: Option<String>)
        ensures
            match token_lookup(self.view_map(), (depot_id, host@), now) {
                Some(t) => r matches Some(s) && s@ == t,
                None => r is None,
            },
    {
        match token_map_get(&self.tokens, depot_id, host) {
            Some((token, expiry)) => {
                if expiry == 0 || (expiry > now && expiry - now > 30) {
                    Some(token)
                } else {
                    None
                }
            },
            None => None,
        }
    }

    /// Caches a token for a depot on a host, replacing the one held.
    pub fn insert(&mut self, depot_id: u32, host: String, token: String, expiry: u64)
        ensures
            final(self).view_map() == old(self).view_map().insert((depot_id, host@), (token@, expiry)),
    {
        token_map_insert(&mut self.tokens, depot_id, host, token, expiry);
    }
}

/// A token just cached is what a lookup gives back while it is usable;
/// the tokens of other depots and hosts are untouched.
pub proof fn lemma_token_read_after_write(
    m: Map<(u32, Seq<char>), (Seq<char>, u64)>,
    key: (u32, Seq<char>),
    token: Seq<char>,
    expiry: u64,
    other: (u32, Seq<char>),
    now: u64,
)
    ensures
        token_lookup(m.insert(key, (token, expiry)), key, now) == (if token_usable(expiry, now) {
            Some(token)
        } else {
            None
        }),
        other != key ==> token_lookup(m.insert(key, (token, expiry)), other, now) == token_lookup(
            m,
            other,
            now,
        ),
{
}

// ------------------------------------------------------------------
// Server rotation
// ------------------------------------------------------------------

/// The turn after `next`; the counter wraps round at its limit.
pub open spec fn next_turn(next: usize) -> usize {
    if next == usize::MAX {
        0
    } else {
        (next + 1) as usize
    }
}

/// A failure count one up, wrapping round at its limit.
pub open spec fn bumped(n: u32) -> u32 {
    if n == u32::MAX {
        0
    } else {
        (n + 1) as u32
    }
}

/// The known content servers, taken in turn, with failure counts per host.
pub struct ServerRing {
    pub servers: Vec<CdnServer>,
    pub next: usize,
    pub failures: dashmap::DashMap<String, u32>,
}

impl ServerRing {
    /// The failure counts held, by host.
    pub closed spec fn failures(&self) -> Map<Seq<char>, u32> {
        failure_counts(self.failures)
    }

    pub fn new(servers: Vec<CdnServer>) -> (r: ServerRing)
        ensures
            r.servers@ == servers@,
            r.next == 0,
            r.failures() == Map::<Seq<char>, u32>::empty(),
    {
        ServerRing { servers, next: 0, failures: failure_map_new() }
    }

    /// The index of the next server in turn; none when there are no servers.
    pub fn pick(&mut self) -> (r: Option<usize>)
        ensures
            old(self).servers@.len() == 0 ==> r is None && final(self).next == old(self).next,
            old(self).servers@.len() > 0 ==> r == Some(
                (old(self).next as int % old(self).servers@.len() as int) as usize,
            ) && final(self).next == next_turn(old(self).next),
            final(self).servers@ == old(self).servers@,
            final(self).failures() == old(self).failures(),
    {
        if self.servers.len() == 0 {
            return None;
        }
        let idx = self.next % self.servers.len();
        self.next = if self.next == usize::MAX {
            0
        } else {
            self.next + 1
        };
        Some(idx)
    }

    /// The failures counted for a host so far.
    pub fn failure_count(&self, host: &str) -> (r: u32)
        ensures
            r == (if self.failures().contains_key(host@) {
                self.failures()[host@]
            } else {
                0
            }),
    {
        match failure_map_get(&self.failures, host) {
            Some(n) => n,
            None => 0,
        }
    }

    /// A request to a host failed: its count goes up (wrapping round at
    /// its limit) and the turn moves on.
    pub fn note_failure(&mut self, host: &str)
        ensures
            final(self).servers@ == old(self).servers@,
            final(self).next == next_turn(old(self).next),
            final(self).failures() == old(self).failures().insert(
                host@,
                (if old(self).failures().contains_key(host@) {
                    bumped(old(self).failures()[host@])
                } else {
                    1u32
                }),
            ),
    {
        let n = self.failure_count(host);
        let bumped: u32 = if n == u32::MAX {
            0
        } else {
            n + 1
        };
        failure_map_insert(&mut self.failures, host.to_owned(), bumped);
        self.next = if self.next == usize::MAX {
            0
        } else {
            self.next + 1
        };
    }

    /// A request to a host succeeded: its failures are forgotten.
    pub fn note_success(&mut self, host: &str)
        ensures
            final(self).servers@ == old(self).servers@,
            final(self).next == old(self).next,
            final(self).failures() == old(self).failures().remove(host@),
    {
        failure_map_remove(&mut self.failures, host);
    }
}

// ------------------------------------------------------------------
// Retries of a CDN download
// ------------------------------------------------------------------

/// Servers tried for a manifest before giving up.
pub const MANIFEST_ATTEMPTS: u32 = 6;

/// Servers tried for a chunk before giving up.
pub const CHUNK_ATTEMPTS: u32 = 8;

/// How a GET of a CDN download ended.
#[derive(Debug, Clone, Copy, PartialEq, Eq)]
pub enum GetOutcome {
    /// The content arrived and was accepted.
    Accepted,
    /// The server asked for an auth token (HTTP 401 or 403).
    AuthRefused,
    /// Any other failure: transport, HTTP status or content.
    Failed,
}

/// Where a download stands on the server it is trying.
#[derive(Debug, Clone, Copy, PartialEq, Eq)]
pub enum FetchPhase {
    /// The plain URL is being fetched.
    Plain,
    /// The server refused the plain URL; a token was asked for.
    AwaitToken,
    /// The URL is being fetched again with the token.
    WithToken,
}

/// What a CDN download does next. On `Retry` and `GiveUp` the server just
/// tried is noted as failing first.
#[derive(Debug, Clone, Copy, PartialEq, Eq)]
pub enum FetchStep {
    /// GET the plain URL on the next server.
    Get,
    /// Ask for an auth token for the server just tried.
    RequestToken,
    /// GET the URL again on the same server with the token appended.
    GetWithToken,
    /// The content is in hand.
    Done,
    /// The server failed; GET the plain URL on the next one.
    Retry,
    /// The server failed and no attempt is left.
    GiveUp,
}

/// The retry state of one CDN download: how many servers have failed, out
/// of how many it may try, and where it stands on the current one.
#[derive(Debug, Clone, Copy)]
pub struct CdnFetch {
    pub attempts: u32,
    pub max_attempts: u32,
    pub phase: FetchPhase,
}

/// The state and step after the current server failed.
pub open spec fn failed_state(s: CdnFetch) -> (CdnFetch, FetchStep) {
    let attempts = if s.attempts < s.max_attempts { (s.attempts + 1) as u32 } else { s.attempts };
    (
        CdnFetch { attempts, max_attempts: s.max_attempts, phase: FetchPhase::Plain },
        if attempts < s.max_attempts { FetchStep::Retry } else { FetchStep::GiveUp },
    )
}

/// The state and step after a GET ended with `outcome`.
pub open spec fn after_get(s: CdnFetch, outcome: GetOutcome) -> (CdnFetch, FetchStep) {
    match outcome {
        GetOutcome::Accepted => (s, FetchStep::Done),
        GetOutcome::AuthRefused => match s.phase {
            FetchPhase::Plain => (
                CdnFetch { phase: FetchPhase::AwaitToken, ..s },
                FetchStep::RequestToken,
            ),
            _ => failed_state(s),
        },
        GetOutcome::Failed => failed_state(s),
    }
}

/// The state and step after the token request: `usable` when a non-empty
/// token came back.
pub open spec fn after_token(s: CdnFetch, usable: bool) -> (CdnFetch, FetchStep) {
    if usable && s.phase == FetchPhase::AwaitToken {
        (CdnFetch { phase: FetchPhase::WithToken, ..s }, FetchStep::GetWithToken)
    } else {
        failed_state(s)
    }
}

impl CdnFetch {
    /// No more servers have failed than it may try.
    pub open spec fn wf(&self) -> bool {
        self.attempts <= self.max_attempts
    }

    /// A download that may try `max_attempts` servers.
    pub fn new(max_attempts: u32) -> (r: CdnFetch)
        ensures
            r == (CdnFetch { attempts: 0, max_attempts, phase: FetchPhase::Plain }),
    {
        CdnFetch { attempts: 0, max_attempts, phase: FetchPhase::Plain }
    }

    /// The first step: a plain GET, unless no attempt is allowed at all.
    pub fn first_step(&self) -> (r: FetchStep)
        ensures
            r == (if self.attempts < self.max_attempts { FetchStep::Get } else { FetchStep::GiveUp }),
    {
        if self.attempts < self.max_attempts {
            FetchStep::Get
        } else {
            FetchStep::GiveUp
        }
    }

    fn fail(&mut self) -> (r: FetchStep)
        ensures
            (*final(self), r) == failed_state(*old(self)),
    {
        if self.attempts < self.max_attempts {
            self.attempts = self.attempts + 1;
        }
        self.phase = FetchPhase::Plain;
        if self.attempts < self.max_attempts {
            FetchStep::Retry
        } else {
            FetchStep::GiveUp
        }
    }

    /// A GET ended: accepted content is done; a first refusal for want of
    /// a token asks for one; anything else fails the server.
    pub fn on_get(&mut self, outcome: GetOutcome) -> (r: FetchStep)
        ensures
            (*final(self), r) == after_get(*old(self), outcome),
    {
        match outcome {
            GetOutcome::Accepted => FetchStep::Done,
            GetOutcome::AuthRefused => match self.phase {
                FetchPhase::Plain => {
                    self.phase = FetchPhase::AwaitToken;
                    FetchStep::RequestToken
                },
                _ => self.fail(),
            },
            GetOutcome::Failed => self.fail(),
        }
    }

    /// The token request ended: a usable token is tried on the same
    /// server; otherwise the server fails.
    pub fn on_token(&mut self, usable: bool) -> (r: FetchStep)
        ensures
            (*final(self), r) == after_token(*old(self), usable),
    {
        let waiting = match self.phase {
            FetchPhase::AwaitToken => true,
            _ => false,
        };
        if usable && waiting {
            self.phase = FetchPhase::WithToken;
            FetchStep::GetWithToken
        } else {
            self.fail()
        }
    }
}

/// A download never counts more failed servers than it may try, keeps its
/// limit, and gives up exactly when the last allowed server has failed.
pub proof fn lemma_fetch_bounded(s: CdnFetch, outcome: GetOutcome, usable: bool)
    requires
        s.wf(),
    ensures
        after_get(s, outcome).0.wf(),
        after_get(s, outcome).0.max_attempts == s.max_attempts,
        after_token(s, usable).0.wf(),
        after_token(s, usable).0.max_attempts == s.max_attempts,
        after_get(s, outcome).1 == FetchStep::GiveUp <==> (outcome != GetOutcome::Accepted && !(
        outcome == GetOutcome::AuthRefused && s.phase == FetchPhase::Plain) && s.attempts + 1
            >= s.max_attempts),
        after_token(s, usable).1 == FetchStep::GiveUp <==> (!(usable && s.phase
            == FetchPhase::AwaitToken) && s.attempts + 1 >= s.max_attempts),
{
}

/// A server is asked for a token at most once: after a GET with the token
/// is refused again, the download moves on to the next server.
pub proof fn lemma_token_asked_once(s: CdnFetch)
    requires
        s.wf(),
        s.phase == FetchPhase::WithToken,
    ensures
        after_get(s, GetOutcome::AuthRefused) == failed_state(s),
        after_get(s, GetOutcome::AuthRefused).1 != FetchStep::RequestToken,
{
}

} // verus!
