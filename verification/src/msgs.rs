//! Steam message framing: EMsg constants, EResult, SteamID helpers and the
//! `MsgHdrProtoBuf` frame layout.

pub mod emsg;
pub mod eresult;
pub mod steamid;

use vstd::prelude::*;

use crate::kv::le_u32;

verus! {

pub const PROTO_MASK: u32 = 0x8000_0000;
pub const EMSG_MASK: u32 = 0x3FFF_FFFF;

/// Job ID meaning "no job".
pub const JOBID_NONE: u64 = 0xFFFF_FFFF_FFFF_FFFF;

/// Protocol version sent in ClientHello / ClientLogon.
pub const CURRENT_PROTOCOL: u32 = 65581;

/// Client package version sent in ClientLogon.
pub const CLIENT_PACKAGE_VERSION: u32 = 1771;

/// The fields of `CMsgProtoBufHeader` that the client reads or sets.
#[derive(Debug, Clone, PartialEq, Eq)]
pub struct ProtoHeader {
    pub steamid: Option<u64>,
    pub client_sessionid: Option<i32>,
    pub jobid_source: Option<u64>,
    pub jobid_target: Option<u64>,
    pub target_job_name: Option<String>,
    pub eresult: Option<i32>,
}

/// A fully-parsed incoming packet.
#[derive(Debug)]
pub struct PacketMsg {
    pub emsg: u32,
    pub header: ProtoHeader,
    /// Remaining body bytes after the protobuf header.
    pub body: Vec<u8>,
}

impl PacketMsg {
    /// The target job id, or "no job".
    pub fn jobid_target(&self) -> (r: u64)
        ensures
            r == match self.header.jobid_target {
                Some(j) => j,
                None => JOBID_NONE,
            },
    {
        match self.header.jobid_target {
            Some(j) => j,
            None => JOBID_NONE,
        }
    }

    /// The source job id, or "no job".
    pub fn jobid_source(&self) -> (r: u64)
        ensures
            r == match self.header.jobid_source {
                Some(j) => j,
                None => JOBID_NONE,
            },
    {
        match self.header.jobid_source {
            Some(j) => j,
            None => JOBID_NONE,
        }
    }
}

/// A protobuf-framed packet split into its parts; the header bytes are
/// still protobuf-encoded.
#[derive(Debug, Clone, PartialEq, Eq)]
pub struct RawPacket {
    pub emsg: u32,
    pub header: Vec<u8>,
    pub body: Vec<u8>,
}

/// Why a frame could not be split.
#[derive(Debug, Clone, Copy, PartialEq, Eq)]
pub enum PacketError {
    /// Fewer than 8 bytes.
    TooSmall(usize),
    /// The header length runs past the end of the frame.
    Truncated,
}

/// Model of a split frame: `(emsg, header bytes, body bytes)`.
pub type FrameParts = (u32, Seq<u8>, Seq<u8>);

/// How a WebSocket binary frame splits: the raw EMsg (little-endian `u32`),
/// then for protobuf messages a little-endian `i32` header length, the
/// header, and the body. Non-protobuf messages give `Ok(None)`.
pub open spec fn frame_spec(data: Seq<u8>) -> Result<Option<FrameParts>, PacketError> {
    if data.len() < 8 {
        Err(PacketError::TooSmall(data.len() as usize))
    } else {
        let raw = le_u32(data, 0) as u32;
        if raw & PROTO_MASK == 0 {
            Ok(None)
        } else {
            let hl = le_u32(data, 4);
            if hl >= 0x8000_0000 || hl > data.len() - 8 {
                Err(PacketError::Truncated)
            } else {
                Ok(
                    Some(
                        (
                            raw & EMSG_MASK,
                            data.subrange(8, 8 + hl),
                            data.subrange(8 + hl, data.len() as int),
                        ),
                    ),
                )
            }
        }
    }
}

pub open spec fn raw_view(p: RawPacket) -> FrameParts {
    (p.emsg, p.header@, p.body@)
}

/// Little-endian bytes of a `u32`.
pub open spec fn u32_le(x: u32) -> Seq<u8> {
    seq![
        (x % 256) as u8,
        ((x / 256) % 256) as u8,
        ((x / 65536) % 256) as u8,
        (x / 16777216) as u8,
    ]
}

/// A full frame for a protobuf message.
pub open spec fn frame_bytes(emsg: u32, header: Seq<u8>, body: Seq<u8>) -> Seq<u8> {
    u32_le(emsg | PROTO_MASK) + u32_le(header.len() as u32) + header + body
}

pub(crate) fn read_u32_le(data: &[u8], p: usize) -> (r: u32)
    requires
        p + 4 <= data@.len(),
    ensures
        r == le_u32(data@, p as int),
{
    data[p] as u32 + data[p + 1] as u32 * 256 + data[p + 2] as u32 * 65536 + data[p + 3] as u32
        * 16777216
}

pub(crate) fn copy_range(data: &[u8], from: usize, to: usize) -> (r: Vec<u8>)
    requires
        from <= to <= data@.len(),
    ensures
        r@ == data@.subrange(from as int, to as int),
{
    let mut out: Vec<u8> = Vec::new();
    let mut i = from;
    while i < to
        invariant
            from <= i <= to <= data@.len(),
            out@ == data@.subrange(from as int, i as int),
        decreases to - i,
    {
        out.push(data[i]);
        i = i + 1;
        assert(out@ =~= data@.subrange(from as int, i as int));
    }
    out
}

/// Splits a raw WS binary frame. Over WebSocket all traffic is plaintext
/// `MsgHdrProtoBuf`-framed protobuf; other messages are skipped (`Ok(None)`).
pub fn parse_packet(data: &[u8]) -> (r: Result<Option<RawPacket>, PacketError>)
    ensures
        match frame_spec(data@) {
            Ok(Some(parts)) => r matches Ok(Some(p)) && raw_view(p) == parts,
            Ok(None) => r matches Ok(None),
            Err(e) => r == Err::<Option<RawPacket>, PacketError>(e),
        },
{
    if data.len() < 8 {
        return Err(PacketError::TooSmall(data.len()));
    }
    let raw_emsg = read_u32_le(data, 0);
    let emsg = raw_emsg & EMSG_MASK;
    if raw_emsg & PROTO_MASK == 0 {
        return Ok(None);
    }
    let header_len = read_u32_le(data, 4);
    if header_len >= 0x8000_0000 || header_len as usize > data.len() - 8 {
        return Err(PacketError::Truncated);
    }
    let hl = header_len as usize;
    let header = copy_range(data, 8, 8 + hl);
    let body = copy_range(data, 8 + hl, data.len());
    Ok(Some(RawPacket { emsg, header, body }))
}

/// The characters of a slice from index `from` on.
pub(crate) fn copy_chars(s: &[char], from: usize) -> (r: Vec<char>)
    requires
        from <= s@.len(),
    ensures
        r@ == s@.subrange(from as int, s@.len() as int),
{
    let mut out: Vec<char> = Vec::new();
    let mut i = from;
    while i < s.len()
        invariant
            from <= i <= s@.len(),
            out@ == s@.subrange(from as int, i as int),
        decreases s@.len() - i,
    {
        out.push(s[i]);
        i = i + 1;
        assert(out@ =~= s@.subrange(from as int, i as int));
    }
    out
}

pub(crate) fn push_u32_le(out: &mut Vec<u8>, x: u32)
    ensures
        final(out)@ == old(out)@ + u32_le(x),
{
    out.push((x % 256) as u8);
    out.push(((x / 256) % 256) as u8);
    out.push(((x / 65536) % 256) as u8);
    out.push((x / 16777216) as u8);
    assert(out@ =~= old(out)@ + u32_le(x));
}

pub(crate) fn push_all(out: &mut Vec<u8>, bytes: &[u8])
    ensures
        final(out)@ == old(out)@ + bytes@,
{
    let mut i: usize = 0;
    while i < bytes.len()
        invariant
            i <= bytes.len(),
            out@ == old(out)@ + bytes@.subrange(0, i as int),
        decreases bytes.len() - i,
    {
        out.push(bytes[i]);
        i = i + 1;
        assert(out@ =~= old(out)@ + bytes@.subrange(0, i as int));
    }
    assert(bytes@.subrange(0, bytes.len() as int) =~= bytes@);
}

/// Frames an encoded header and body as a protobuf message.
pub fn encode_packet(emsg: u32, header: &[u8], body: &[u8]) -> (r: Vec<u8>)
    requires
        header@.len() < 0x8000_0000,
    ensures
        r@ == frame_bytes(emsg, header@, body@),
{
    let mut out: Vec<u8> = Vec::new();
    push_u32_le(&mut out, emsg | PROTO_MASK);
    push_u32_le(&mut out, header.len() as u32);
    push_all(&mut out, header);
    push_all(&mut out, body);
    assert(out@ =~= frame_bytes(emsg, header@, body@));
    out
}

/// Builds a header with the current session fields pre-filled.
pub fn make_header(
    steamid: u64,
    session_id: i32,
    source_job: u64,
    target_job: u64,
    target_job_name: Option<String>,
) -> (r: ProtoHeader)
    ensures
        r.steamid == (if steamid == 0 {
            None
        } else {
            Some(steamid)
        }),
        r.client_sessionid == (if session_id == 0 {
            None
        } else {
            Some(session_id)
        }),
        r.jobid_source == Some(source_job),
        r.jobid_target == Some(target_job),
        r.target_job_name == target_job_name,
        r.eresult is None,
{
    ProtoHeader {
        steamid: if steamid == 0 {
            None
        } else {
            Some(steamid)
        },
        client_sessionid: if session_id == 0 {
            None
        } else {
            Some(session_id)
        },
        jobid_source: Some(source_job),
        jobid_target: Some(target_job),
        target_job_name,
        eresult: None,
    }
}

/// Reading back the little-endian bytes of a `u32` gives the value.
pub proof fn lemma_u32_le_roundtrip(x: u32)
    ensures
        le_u32(u32_le(x), 0) == x,
{
    let s = u32_le(x);
    assert(s[0] == x % 256);
    assert(s[1] == (x / 256) % 256);
    assert(s[2] == (x / 65536) % 256);
    assert(s[3] == x / 16777216);
    assert((x % 256) + ((x / 256) % 256) * 256 + ((x / 65536) % 256) * 65536 + (x / 16777216)
        * 16777216 == x) by (nonlinear_arith);
}

/// Reading four bytes that spell `u32_le(x)` at `p` gives `x`.
pub proof fn lemma_le_u32_at(d: Seq<u8>, p: int, x: u32)
    requires
        0 <= p,
        p + 4 <= d.len(),
        d.subrange(p, p + 4) == u32_le(x),
    ensures
        le_u32(d, p) == x,
{
    lemma_u32_le_roundtrip(x);
    assert(d[p] == d.subrange(p, p + 4)[0]);
    assert(d[p + 1] == d.subrange(p, p + 4)[1]);
    assert(d[p + 2] == d.subrange(p, p + 4)[2]);
    assert(d[p + 3] == d.subrange(p, p + 4)[3]);
}

/// Splitting a frame built by [`encode_packet`] gives back its EMsg (within
/// the EMsg mask), header and body.
pub proof fn lemma_frame_roundtrip(emsg: u32, header: Seq<u8>, body: Seq<u8>)
    requires
        header.len() < 0x8000_0000,
    ensures
        frame_spec(frame_bytes(emsg, header, body)) == Ok::<Option<FrameParts>, PacketError>(
            Some((emsg & EMSG_MASK, header, body)),
        ),
{
    let d = frame_bytes(emsg, header, body);
    let raw = emsg | PROTO_MASK;
    let hl = header.len() as u32;
    lemma_u32_le_roundtrip(raw);
    lemma_u32_le_roundtrip(hl);
    assert(d.subrange(0, 4) =~= u32_le(raw));
    assert(d.subrange(4, 8) =~= u32_le(hl));
    assert(le_u32(d, 0) == le_u32(u32_le(raw), 0));
    assert(le_u32(d, 4) == le_u32(u32_le(hl), 0));
    assert((emsg | 0x8000_0000u32) & 0x8000_0000u32 != 0) by (bit_vector);
    assert((emsg | 0x8000_0000u32) & 0x3FFF_FFFFu32 == emsg & 0x3FFF_FFFFu32) by (bit_vector);
    assert(d.subrange(8, 8 + header.len() as int) =~= header);
    assert(d.subrange(8 + header.len() as int, d.len() as int) =~= body);
}

} // verus!
