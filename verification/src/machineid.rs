//! Machine ID generation: the binary KeyValues blob sent in ClientLogon.
//!
//! Steam requires a "well-formed" machine MessageObject for logon; stable
//! pseudo-random IDs are derived from a seed persisted per installation.

use rand::RngCore;
use sha1::{Digest, Sha1};
use vstd::prelude::*;
use vstd::string::StringSliceAdditionalSpecFns;
use vstd::utf8::{encode_scalar, encode_utf8};

use crate::crypto::{hex_digit, hex_encode_upper, hex_text};
use crate::kv::{
    bin_node_spec, bin_value_spec, binary_kv_spec, cstr_spec, leaf_model, node_model, nul_index,
    lossy_text, with_child, FloatSeq, KvError, KvModel,
};

verus! {

/// SHA-1 digest of a byte string.
pub uninterp spec fn sha1_digest(data: Seq<u8>) -> Seq<u8>;

/// Calls `Sha1::digest`; the result is named by [`sha1_digest`] and is
/// 20 bytes long.
#[verifier::external_body]
pub(crate) fn sha1(data: &[u8]) -> (r: Vec<u8>)
    ensures
        r@ == sha1_digest(data@),
        r@.len() == 20,
{
    Sha1::digest(data).to_vec()
}

/// Upper-case hex of the SHA-1 digest.
pub fn sha1_hex(data: &[u8]) -> (r: String)
    ensures
        r@ == hex_text(sha1_digest(data@), true),
        sha1_digest(data@).len() == 20,
{
    let d = sha1(data);
    hex_encode_upper(d.as_slice())
}

/// The bytes of `MessageObject`.
pub open spec fn message_object_name() -> Seq<u8> {
    seq![0x4d, 0x65, 0x73, 0x73, 0x61, 0x67, 0x65, 0x4f, 0x62, 0x6a, 0x65, 0x63, 0x74]
}

/// One string entry of a binary KV node: type 1, name, NUL, value, NUL.
pub open spec fn string_entry(name: Seq<u8>, value: Seq<u8>) -> Seq<u8> {
    seq![1u8] + name + seq![0u8] + value + seq![0u8]
}

/// The hex text of `sha1(seed ++ suffix)`, as bytes.
pub open spec fn seeded_hash_text(seed: Seq<u8>, suffix: Seq<u8>) -> Seq<u8> {
    encode_utf8(hex_text(sha1_digest(seed + suffix), true))
}

pub open spec fn tag_bb3() -> Seq<u8> {
    seq![0x42, 0x42, 0x33]
}

pub open spec fn tag_ff2() -> Seq<u8> {
    seq![0x46, 0x46, 0x32]
}

pub open spec fn tag_3b3() -> Seq<u8> {
    seq![0x33, 0x42, 0x33]
}

pub open spec fn suffix_bb3() -> Seq<u8> {
    seq![0x3a, 0x62, 0x62, 0x33]
}

pub open spec fn suffix_ff2() -> Seq<u8> {
    seq![0x3a, 0x66, 0x66, 0x32]
}

pub open spec fn suffix_3b3() -> Seq<u8> {
    seq![0x3a, 0x33, 0x62, 0x33]
}

/// The machine-id blob for a seed:
/// `MessageObject { "BB3" = hex(sha1(seed:bb3)), "FF2" = ..., "3B3" = ... }`
/// followed by two end markers.
pub open spec fn machine_id_blob(seed: Seq<u8>) -> Seq<u8> {
    seq![0u8] + message_object_name() + seq![0u8] + string_entry(
        tag_bb3(),
        seeded_hash_text(seed, suffix_bb3()),
    ) + string_entry(tag_ff2(), seeded_hash_text(seed, suffix_ff2())) + string_entry(
        tag_3b3(),
        seeded_hash_text(seed, suffix_3b3()),
    ) + seq![8u8, 8u8]
}

fn append(out: &mut Vec<u8>, bytes: &[u8])
    ensures
        final(out)@ == old(out)@ + bytes@,
{
    let mut i: usize = 0;
    while i < bytes.len()
        invariant
            i <= bytes.len(),
            out@ == old(out)@ + bytes@.subrange(0, i as int),
        decreases bytes.len() - i,
    {
        out.push(bytes[i]);
        i = i + 1;
        assert(out@ =~= old(out)@ + bytes@.subrange(0, i as int));
    }
    assert(bytes@.subrange(0, bytes.len() as int) =~= bytes@);
}

fn seeded_hash(seed: &[u8], suffix: &[u8]) -> (r: Vec<u8>)
    ensures
        r@ == seeded_hash_text(seed@, suffix@),
        r@.len() == 40,
{
    let mut input: Vec<u8> = Vec::new();
    append(&mut input, seed);
    append(&mut input, suffix);
    assert(input@ =~= seed@ + suffix@);
    let text = sha1_hex(input.as_slice());
    proof {
        lemma_hex_text_ascii(sha1_digest(seed@ + suffix@), true);
        lemma_encode_ascii_no_nul(hex_text(sha1_digest(seed@ + suffix@), true));
    }
    let bytes = text.as_str().as_bytes();
    vstd::slice::slice_to_vec(bytes)
}

fn push_string_entry(out: &mut Vec<u8>, name: &[u8], value: &[u8])
    ensures
        final(out)@ == old(out)@ + string_entry(name@, value@),
{
    out.push(1);
    append(out, name);
    out.push(0);
    append(out, value);
    out.push(0);
    assert(out@ =~= old(out)@ + string_entry(name@, value@));
}

/// Builds the binary KeyValues machine-id blob:
/// `MessageObject { "BB3" = hex(sha1(seed)), "FF2" = ..., "3B3" = ... }`.
pub fn build_machine_id(seed: &[u8]) -> (r: Vec<u8>)
    ensures
        r@ == machine_id_blob(seed@),
        r@.len() == 155,
{
    let bb3 = seeded_hash(seed, &[0x3a, 0x62, 0x62, 0x33]);
    let ff2 = seeded_hash(seed, &[0x3a, 0x66, 0x66, 0x32]);
    let b3b3 = seeded_hash(seed, &[0x3a, 0x33, 0x62, 0x33]);
    proof {
        assert([0x3au8, 0x62, 0x62, 0x33]@ =~= suffix_bb3());
        assert([0x3au8, 0x66, 0x66, 0x32]@ =~= suffix_ff2());
        assert([0x3au8, 0x33, 0x62, 0x33]@ =~= suffix_3b3());
    }
    let mut out: Vec<u8> = Vec::new();
    // root node: type None (0x00), name "MessageObject"
    out.push(0x00);
    append(
        &mut out,
        &[0x4d, 0x65, 0x73, 0x73, 0x61, 0x67, 0x65, 0x4f, 0x62, 0x6a, 0x65, 0x63, 0x74],
    );
    out.push(0x00);
    push_string_entry(&mut out, &[0x42, 0x42, 0x33], bb3.as_slice());
    push_string_entry(&mut out, &[0x46, 0x46, 0x32], ff2.as_slice());
    push_string_entry(&mut out, &[0x33, 0x42, 0x33], b3b3.as_slice());
    // end of the root node's children, then a second end marker
    out.push(0x08);
    out.push(0x08);
    proof {
        assert([0x4du8, 0x65, 0x73, 0x73, 0x61, 0x67, 0x65, 0x4f, 0x62, 0x6a, 0x65, 0x63, 0x74]@
            =~= message_object_name());
        assert([0x42u8, 0x42, 0x33]@ =~= tag_bb3());
        assert([0x46u8, 0x46, 0x32]@ =~= tag_ff2());
        assert([0x33u8, 0x42, 0x33]@ =~= tag_3b3());
        assert(out@ =~= machine_id_blob(seed@));
    }
    out
}

/// Fills a fresh vector of `n` bytes with `rand::thread_rng().fill_bytes`;
/// only its length is stated.
#[verifier::external_body]
pub(crate) fn random_bytes(n: usize) -> (r: Vec<u8>)
    ensures
        r@.len() == n,
{
    let mut bytes = vec![0u8; n];
    rand::thread_rng().fill_bytes(&mut bytes);
    bytes
}

/// Generates a fresh random 32-byte seed to persist in settings.
pub fn random_seed() -> (r: Vec<u8>)
    ensures
        r@.len() == 32,
{
    random_bytes(32)
}

// ------------------------------------------------------------------
// The blob read back as binary KeyValues
// ------------------------------------------------------------------

/// No byte of `b` is NUL.
pub open spec fn no_nul(b: Seq<u8>) -> bool {
    forall|i: int| 0 <= i < b.len() ==> b[i] != 0
}

proof fn lemma_hex_text_ascii(data: Seq<u8>, upper: bool)
    ensures
        forall|i: int|
            0 <= i < hex_text(data, upper).len() ==> 0 < ((#[trigger] hex_text(data, upper)[i]) as u32)
                && ((hex_text(data, upper)[i]) as u32) < 0x80,
        hex_text(data, upper).len() == 2 * data.len(),
    decreases data.len(),
{
    if data.len() > 0 {
        lemma_hex_text_ascii(data.drop_last(), upper);
        let hi = data.last() as int / 16;
        let lo = data.last() as int % 16;
        assert(0 < (hex_digit(hi, upper) as u32) && (hex_digit(hi, upper) as u32) < 0x80);
        assert(0 < (hex_digit(lo, upper) as u32) && (hex_digit(lo, upper) as u32) < 0x80);
    }
}

proof fn lemma_encode_ascii_no_nul(cs: Seq<char>)
    requires
        forall|i: int| 0 <= i < cs.len() ==> 0 < ((#[trigger] cs[i]) as u32) && ((cs[i]) as u32) < 0x80,
    ensures
        no_nul(encode_utf8(cs)),
        encode_utf8(cs).len() == cs.len(),
    decreases cs.len(),
{
    if cs.len() > 0 {
        let c = cs[0] as u32;
        assert(0 < c < 0x80);
        assert((c & 0x7F) as u8 != 0) by (bit_vector)
            requires
                0 < c < 0x80,
        ;
        assert(forall|i: int| 0 <= i < cs.drop_first().len() ==> #[trigger] cs.drop_first()[i] == cs[i + 1]);
        lemma_encode_ascii_no_nul(cs.drop_first());
        let head = encode_scalar(c);
        assert(head =~= seq![(c & 0x7F) as u8]);
    }
}

/// The hex text of a digest, as bytes, holds no NUL.
proof fn lemma_hash_text_no_nul(seed: Seq<u8>, suffix: Seq<u8>)
    ensures
        no_nul(seeded_hash_text(seed, suffix)),
{
    lemma_hex_text_ascii(sha1_digest(seed + suffix), true);
    lemma_encode_ascii_no_nul(hex_text(sha1_digest(seed + suffix), true));
}

proof fn lemma_nul_at(d: Seq<u8>, p: int, s: Seq<u8>)
    requires
        0 <= p,
        p + s.len() < d.len(),
        d.subrange(p, p + s.len()) == s,
        no_nul(s),
        d[p + s.len()] == 0,
    ensures
        nul_index(d, p) == Some(p + s.len()),
        cstr_spec(d, p) == Some((lossy_text(s), p + s.len() + 1)),
    decreases s.len(),
{
    if s.len() > 0 {
        assert(d[p] == s[0]);
        assert(d.subrange(p + 1, p + 1 + s.drop_first().len()) =~= s.drop_first());
        lemma_nul_at(d, p + 1, s.drop_first());
    }
}

proof fn lemma_string_entry(d: Seq<u8>, p: int, t: Seq<u8>, v: Seq<u8>, node: KvModel, path: Seq<usize>)
    requires
        0 <= p,
        p + string_entry(t, v).len() < d.len(),
        d.subrange(p, p + string_entry(t, v).len()) == string_entry(t, v),
        no_nul(t),
        no_nul(v),
    ensures
        bin_node_spec(d, p, node, path, seq![]) == bin_node_spec(
            d,
            p + string_entry(t, v).len(),
            with_child(node, leaf_model(lossy_text(t), lossy_text(v))),
            path,
            seq![],
        ),
{
    let e = string_entry(t, v);
    let w = d.subrange(p, p + e.len());
    assert(e =~= seq![1u8] + t + seq![0u8] + v + seq![0u8]);
    assert(e.len() == t.len() + v.len() + 3);
    assert(d[p] == w[0]);
    assert(e[0] == 1u8);
    assert forall|i: int| 0 <= i < t.len() implies #[trigger] d.subrange(p + 1, p + 1 + t.len())[i] == t[i] by {
        assert(w[1 + i] == d[p + 1 + i]);
        assert(e[1 + i] == t[i]);
    }
    assert(d.subrange(p + 1, p + 1 + t.len()) =~= t);
    assert(w[(1 + t.len()) as int] == d[p + 1 + t.len()]);
    assert(e[(1 + t.len()) as int] == 0u8);
    lemma_nul_at(d, p + 1, t);
    let q = p + 1 + t.len() + 1;
    assert forall|i: int| 0 <= i < v.len() implies #[trigger] d.subrange(q, q + v.len())[i] == v[i] by {
        assert(w[t.len() + 2 + i] == d[q + i]);
        assert(e[t.len() + 2 + i] == v[i]);
    }
    assert(d.subrange(q, q + v.len()) =~= v);
    assert(w[(t.len() + 2 + v.len()) as int] == d[q + v.len()]);
    assert(e[(t.len() + 2 + v.len()) as int] == 0u8);
    lemma_nul_at(d, q, v);
    let leaf = leaf_model(lossy_text(t), lossy_text(v));
    assert(cstr_spec(d, p + 1) == Some((lossy_text(t), q)));
    assert(bin_value_spec(d, q, 1u8, lossy_text(t), node, path, seq![]) == Ok::<
        (KvModel, FloatSeq, int),
        KvError,
    >((with_child(node, leaf), seq![], q + v.len() + 1)));
    assert(q + v.len() + 1 == p + e.len());
}

/// The machine-id blob reads back as binary KeyValues: one node named
/// `MessageObject` holding the three leaves `BB3`, `FF2` and `3B3` in that
/// order, whose values are the upper-case hex SHA-1 texts of the seed with
/// each suffix, and no float leaves.
#[verifier::rlimit(80)]
pub proof fn lemma_machine_id_parses(seed: Seq<u8>)
    ensures
        binary_kv_spec(machine_id_blob(seed)) == Ok::<(KvModel, FloatSeq), KvError>(
            (
                with_child(
                    node_model(seq![]),
                    KvModel {
                        name: lossy_text(message_object_name()),
                        value: None,
                        children: seq![
                            leaf_model(lossy_text(tag_bb3()), lossy_text(seeded_hash_text(seed, suffix_bb3()))),
                            leaf_model(lossy_text(tag_ff2()), lossy_text(seeded_hash_text(seed, suffix_ff2()))),
                            leaf_model(lossy_text(tag_3b3()), lossy_text(seeded_hash_text(seed, suffix_3b3()))),
                        ],
                    },
                ),
                seq![],
            ),
        ),
{
    let v1 = seeded_hash_text(seed, suffix_bb3());
    let v2 = seeded_hash_text(seed, suffix_ff2());
    let v3 = seeded_hash_text(seed, suffix_3b3());
    lemma_hash_text_no_nul(seed, suffix_bb3());
    lemma_hash_text_no_nul(seed, suffix_ff2());
    lemma_hash_text_no_nul(seed, suffix_3b3());
    let head = seq![0u8] + message_object_name() + seq![0u8];
    let e1 = string_entry(tag_bb3(), v1);
    let e2 = string_entry(tag_ff2(), v2);
    let e3 = string_entry(tag_3b3(), v3);
    let d = machine_id_blob(seed);
    assert(d =~= head + e1 + e2 + e3 + seq![8u8, 8u8]);
    let a = head.len() as int;
    let b = a + e1.len();
    let c = b + e2.len();
    let e = c + e3.len();
    assert(d.len() == e + 2);
    assert(d.subrange(a, b) =~= e1);
    assert(d.subrange(b, c) =~= e2);
    assert(d.subrange(c, e) =~= e3);
    assert(d[e] == 8u8 && d[e + 1] == 8u8);
    assert(no_nul(tag_bb3()) && no_nul(tag_ff2()) && no_nul(tag_3b3()));
    assert(no_nul(message_object_name()));
    // the MessageObject node
    assert(d.subrange(1, 14) =~= message_object_name());
    assert(d[14] == 0u8);
    lemma_nul_at(d, 1, message_object_name());
    let name = lossy_text(message_object_name());
    let n0 = node_model(name);
    let n1 = with_child(n0, leaf_model(lossy_text(tag_bb3()), lossy_text(v1)));
    let n2 = with_child(n1, leaf_model(lossy_text(tag_ff2()), lossy_text(v2)));
    let n3 = with_child(n2, leaf_model(lossy_text(tag_3b3()), lossy_text(v3)));
    let path = seq![].push(node_model(seq![]).children.len() as usize);
    lemma_string_entry(d, a, tag_bb3(), v1, n0, path);
    lemma_string_entry(d, b, tag_ff2(), v2, n1, path);
    lemma_string_entry(d, c, tag_3b3(), v3, n2, path);
    assert(bin_node_spec(d, e, n3, path, seq![]) == Ok::<(KvModel, FloatSeq, int), KvError>((n3, seq![], e + 1)));
    assert(bin_value_spec(d, 15, 0u8, name, node_model(seq![]), seq![], seq![]) == Ok::<
        (KvModel, FloatSeq, int),
        KvError,
    >((with_child(node_model(seq![]), n3), seq![], e + 1)));
    assert(bin_node_spec(d, e + 1, with_child(node_model(seq![]), n3), seq![], seq![]) == Ok::<
        (KvModel, FloatSeq, int),
        KvError,
    >((with_child(node_model(seq![]), n3), seq![], e + 2)));
    assert(n3.children =~= seq![
        leaf_model(lossy_text(tag_bb3()), lossy_text(v1)),
        leaf_model(lossy_text(tag_ff2()), lossy_text(v2)),
        leaf_model(lossy_text(tag_3b3()), lossy_text(v3)),
    ]);
}

pub open spec fn message_object_text() -> Seq<char> {
    seq!['M', 'e', 's', 's', 'a', 'g', 'e', 'O', 'b', 'j', 'e', 'c', 't']
}

/// The read-back tree of a machine-id blob, with the names and values
/// spelt out: `MessageObject` with `BB3`, `FF2` and `3B3` holding the
/// upper-case hex SHA-1 of the seed with `:bb3`, `:ff2` and `:3b3`.
pub open spec fn machine_id_tree(seed: Seq<u8>) -> KvModel {
    with_child(
        node_model(seq![]),
        KvModel {
            name: message_object_text(),
            value: None,
            children: seq![
                leaf_model(seq!['B', 'B', '3'], hex_text(sha1_digest(seed + suffix_bb3()), true)),
                leaf_model(seq!['F', 'F', '2'], hex_text(sha1_digest(seed + suffix_ff2()), true)),
                leaf_model(seq!['3', 'B', '3'], hex_text(sha1_digest(seed + suffix_3b3()), true)),
            ],
        },
    )
}

proof fn lemma_encode_ascii(cs: Seq<char>)
    requires
        forall|i: int| 0 <= i < cs.len() ==> ((#[trigger] cs[i]) as u32) < 0x80,
    ensures
        encode_utf8(cs) =~= Seq::new(cs.len(), |i: int| cs[i] as u32 as u8),
    decreases cs.len(),
{
    if cs.len() > 0 {
        let c = cs[0] as u32;
        assert(c < 0x80);
        assert((c & 0x7F) as u8 == c as u8) by (bit_vector)
            requires
                c < 0x80,
        ;
        assert(forall|i: int| 0 <= i < cs.drop_first().len() ==> #[trigger] cs.drop_first()[i] == cs[i + 1]);
        lemma_encode_ascii(cs.drop_first());
        assert(encode_scalar(c) =~= seq![c as u8]);
    }
}

proof fn lemma_ascii_text(cs: Seq<char>, bytes: Seq<u8>)
    requires
        encode_utf8(cs) == bytes,
    ensures
        lossy_text(bytes) == cs,
{
    vstd::utf8::encode_utf8_valid_utf8(cs);
    vstd::utf8::encode_utf8_decode_utf8(cs);
}

/// Reading a machine-id blob back as binary KeyValues gives
/// [`machine_id_tree`]: the node `MessageObject` with the leaves `BB3`,
/// `FF2` and `3B3`, in that order, holding the 40 upper-case hex digits of
/// each SHA-1, and no float leaves.
pub proof fn lemma_machine_id_reads_back(seed: Seq<u8>)
    ensures
        binary_kv_spec(machine_id_blob(seed)) == Ok::<(KvModel, FloatSeq), KvError>(
            (machine_id_tree(seed), seq![]),
        ),
{
    lemma_machine_id_parses(seed);
    lemma_encode_ascii(message_object_text());
    lemma_encode_ascii(seq!['B', 'B', '3']);
    lemma_encode_ascii(seq!['F', 'F', '2']);
    lemma_encode_ascii(seq!['3', 'B', '3']);
    assert(encode_utf8(message_object_text()) =~= message_object_name());
    assert(encode_utf8(seq!['B', 'B', '3']) =~= tag_bb3());
    assert(encode_utf8(seq!['F', 'F', '2']) =~= tag_ff2());
    assert(encode_utf8(seq!['3', 'B', '3']) =~= tag_3b3());
    lemma_ascii_text(message_object_text(), message_object_name());
    lemma_ascii_text(seq!['B', 'B', '3'], tag_bb3());
    lemma_ascii_text(seq!['F', 'F', '2'], tag_ff2());
    lemma_ascii_text(seq!['3', 'B', '3'], tag_3b3());
    lemma_ascii_text(hex_text(sha1_digest(seed + suffix_bb3()), true), seeded_hash_text(seed, suffix_bb3()));
    lemma_ascii_text(hex_text(sha1_digest(seed + suffix_ff2()), true), seeded_hash_text(seed, suffix_ff2()));
    lemma_ascii_text(hex_text(sha1_digest(seed + suffix_3b3()), true), seeded_hash_text(seed, suffix_3b3()));
}

} // verus!
