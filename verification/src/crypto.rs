//! Crypto helpers: AES-256 (ECB/CBC) for depot chunks and filenames, RSA
//! for password encryption, hex/base64 codecs and Adler-32.

use aes::cipher::{BlockDecrypt, BlockDecryptMut, KeyInit, KeyIvInit};
use base64::Engine;
use vstd::arithmetic::power::pow;
use vstd::prelude::*;
use vstd::slice::slice_to_vec;
use vstd::string::StringSliceAdditionalSpecFns;
use vstd::utf8::encode_utf8;

use crate::kv::{lossy_text, utf8_lossy_string};
use crate::text::{char_is_ws, is_ws, str_chars, string_from_chars};

verus! {

/// Why a crypto step failed.
#[derive(Debug, Clone, Copy, PartialEq, Eq)]
pub enum CryptoError {
    /// The AES key is not 32 bytes long.
    BadKeyLength,
    /// CBC decryption or PKCS#7 unpadding failed.
    Decrypt,
    /// The text is not valid base64.
    Base64,
    /// The decoded ciphertext length is not a positive multiple of 16.
    InvalidLength(usize),
    /// A hex string is malformed.
    Hex,
    /// The RSA public key was rejected.
    RsaKey,
    /// RSA encryption failed.
    RsaEncrypt,
}

// ------------------------------------------------------------------
// AES
// ------------------------------------------------------------------

/// AES-256 decryption of one 16-byte block under a 32-byte key.
pub uninterp spec fn aes256_decrypt_block(key: Seq<u8>, block: Seq<u8>) -> Seq<u8>;

/// AES-256-CBC decryption with PKCS#7 unpadding; `None` when the data is
/// not a whole number of blocks or the padding is invalid.
pub uninterp spec fn aes256_cbc_pkcs7(key: Seq<u8>, iv: Seq<u8>, data: Seq<u8>) -> Option<
    Seq<u8>,
>;

/// Decrypts a single 16-byte block with AES-256-ECB (no padding), through
/// `aes::Aes256::decrypt_block`; the result is named by
/// [`aes256_decrypt_block`].
#[verifier::external_body]
pub fn aes256_ecb_decrypt_block(key: &[u8], block: &[u8; 16]) -> (r: [u8; 16])
    requires
        key@.len() == 32,
    ensures
        r@ == aes256_decrypt_block(key@, block@),
{
    let cipher = aes::Aes256::new_from_slice(key).unwrap();
    let mut buf = aes::cipher::generic_array::GenericArray::clone_from_slice(block);
    cipher.decrypt_block(&mut buf);
    buf.into()
}

/// Runs `cbc::Decryptor<Aes256>::decrypt_padded_mut::<Pkcs7>` over a copy of
/// `data`; the result is named by [`aes256_cbc_pkcs7`].
#[verifier::external_body]
fn cbc_pkcs7_decrypt(key: &[u8], iv: &[u8; 16], data: &[u8]) -> (r: Option<Vec<u8>>)
    requires
        key@.len() == 32,
    ensures
        r matches Some(v) ==> aes256_cbc_pkcs7(key@, iv@, data@) == Some(v@),
        r is None ==> aes256_cbc_pkcs7(key@, iv@, data@) is None,
{
    let dec = cbc::Decryptor::<aes::Aes256>::new_from_slices(key, iv).ok()?;
    let mut buf = data.to_vec();
    dec.decrypt_padded_mut::<aes::cipher::block_padding::Pkcs7>(&mut buf).ok().map(|s| s.to_vec())
}

/// Decrypts data with AES-256-CBC and PKCS#7 padding.
pub fn aes256_cbc_decrypt(key: &[u8], iv: &[u8; 16], data: &[u8]) -> (r: Result<
    Vec<u8>,
    CryptoError,
>)
    ensures
        key@.len() != 32 ==> r == Err::<Vec<u8>, CryptoError>(CryptoError::BadKeyLength),
        key@.len() == 32 ==> match aes256_cbc_pkcs7(key@, iv@, data@) {
            Some(p) => r matches Ok(v) && v@ == p,
            None => r == Err::<Vec<u8>, CryptoError>(CryptoError::Decrypt),
        },
{
    if key.len() != 32 {
        return Err(CryptoError::BadKeyLength);
    }
    match cbc_pkcs7_decrypt(key, iv, data) {
        Some(v) => Ok(v),
        None => Err(CryptoError::Decrypt),
    }
}

/// The first 16 bytes of a slice as a block.
pub fn first_block(data: &[u8]) -> (r: [u8; 16])
    requires
        data@.len() >= 16,
    ensures
        r@ == data@.subrange(0, 16),
{
    let r = [
        data[0],
        data[1],
        data[2],
        data[3],
        data[4],
        data[5],
        data[6],
        data[7],
        data[8],
        data[9],
        data[10],
        data[11],
        data[12],
        data[13],
        data[14],
        data[15],
    ];
    assert(r@ =~= data@.subrange(0, 16));
    r
}

/// The bytes of a slice from index `start` on.
pub fn tail_from(data: &[u8], start: usize) -> (r: Vec<u8>)
    requires
        start <= data@.len(),
    ensures
        r@ == data@.subrange(start as int, data@.len() as int),
{
    let mut out: Vec<u8> = Vec::new();
    let mut i = start;
    while i < data.len()
        invariant
            start <= i <= data@.len(),
            out@ == data@.subrange(start as int, i as int),
        decreases data.len() - i,
    {
        out.push(data[i]);
        i = i + 1;
        assert(out@ =~= data@.subrange(start as int, i as int));
    }
    out
}

/// Decryption of a Steam symmetric ciphertext laid out as
/// `[ECB-encrypted IV | CBC-encrypted data]`.
pub open spec fn symmetric_decrypt(key: Seq<u8>, data: Seq<u8>) -> Option<Seq<u8>> {
    let iv = aes256_decrypt_block(key, data.subrange(0, 16));
    aes256_cbc_pkcs7(key, iv, data.subrange(16, data.len() as int))
}

// ------------------------------------------------------------------
// base64 / hex
// ------------------------------------------------------------------

/// Standard (padded) base64 decoding; `None` for invalid input.
pub uninterp spec fn base64_std_decode(text: Seq<u8>) -> Option<Seq<u8>>;

/// Standard (padded) base64 encoding.
pub uninterp spec fn base64_std_encode(data: Seq<u8>) -> Seq<char>;

/// Calls `base64::engine::general_purpose::STANDARD.decode`; the result is
/// named by [`base64_std_decode`].
#[verifier::external_body]
fn base64_decode_standard(text: &[u8]) -> (r: Option<Vec<u8>>)
    ensures
        r matches Some(v) ==> base64_std_decode(text@) == Some(v@),
        r is None ==> base64_std_decode(text@) is None,
{
    base64::engine::general_purpose::STANDARD.decode(text).ok()
}

/// Calls `base64::engine::general_purpose::STANDARD.encode`; the result is
/// named by [`base64_std_encode`].
#[verifier::external_body]
fn base64_encode_standard(data: &[u8]) -> (r: String)
    ensures
        r@ == base64_std_encode(data@),
{
    base64::engine::general_purpose::STANDARD.encode(data)
}

/// Value of a hex digit (either case).
pub open spec fn hex_val(c: u8) -> Option<u8> {
    if 0x30 <= c <= 0x39 {
        Some((c - 0x30) as u8)
    } else if 0x41 <= c <= 0x46 {
        Some((c - 0x41 + 10) as u8)
    } else if 0x61 <= c <= 0x66 {
        Some((c - 0x61 + 10) as u8)
    } else {
        None
    }
}

/// `hex::decode`: an even number of hex digits, two per byte.
pub open spec fn hex_decode_spec(text: Seq<u8>) -> Option<Seq<u8>> {
    if text.len() % 2 == 0 && forall|i: int| 0 <= i < text.len() ==> #[trigger] hex_val(text[i]) is Some {
        Some(
            Seq::new(
                (text.len() / 2) as nat,
                |k: int|
                    (hex_val(text[2 * k]).unwrap() * 16 + hex_val(text[2 * k + 1]).unwrap()) as u8,
            ),
        )
    } else {
        None
    }
}

/// Hex digit character for a nibble.
pub open spec fn hex_digit(n: int, upper: bool) -> char {
    if n < 10 {
        ((n + 0x30) as u8) as char
    } else if upper {
        ((n - 10 + 0x41) as u8) as char
    } else {
        ((n - 10 + 0x61) as u8) as char
    }
}

/// `hex::encode` (lower case) or `hex::encode_upper`.
pub open spec fn hex_text(data: Seq<u8>, upper: bool) -> Seq<char>
    decreases data.len(),
{
    if data.len() == 0 {
        seq![]
    } else {
        hex_text(data.drop_last(), upper).push(hex_digit(data.last() as int / 16, upper)).push(
            hex_digit(data.last() as int % 16, upper),
        )
    }
}

/// Calls `hex::decode`; the contract states its whole behaviour.
#[verifier::external_body]
pub(crate) fn hex_decode(text: &[u8]) -> (r: Option<Vec<u8>>)
    ensures
        r matches Some(v) ==> hex_decode_spec(text@) == Some(v@),
        r is None ==> hex_decode_spec(text@) is None,
{
    hex::decode(text).ok()
}

/// Calls `hex::encode`; the contract states its whole behaviour.
#[verifier::external_body]
pub(crate) fn hex_encode(data: &[u8]) -> (r: String)
    ensures
        r@ == hex_text(data@, false),
{
    hex::encode(data)
}

/// Calls `hex::encode_upper`; the contract states its whole behaviour.
#[verifier::external_body]
pub(crate) fn hex_encode_upper(data: &[u8]) -> (r: String)
    ensures
        r@ == hex_text(data@, true),
{
    hex::encode_upper(data)
}

// ------------------------------------------------------------------
// symmetric names
// ------------------------------------------------------------------

/// The characters of `s` that are not whitespace.
pub open spec fn strip_ws(s: Seq<char>) -> Seq<char>
    decreases s.len(),
{
    if s.len() == 0 {
        seq![]
    } else if is_ws(s.last()) {
        strip_ws(s.drop_last())
    } else {
        strip_ws(s.drop_last()).push(s.last())
    }
}

/// Index of the first zero byte at or after `i`, or the length.
pub open spec fn zero_from(s: Seq<u8>, i: int) -> int
    decreases s.len() - i,
{
    if i < 0 || i >= s.len() {
        s.len() as int
    } else if s[i] == 0 {
        i
    } else {
        zero_from(s, i + 1)
    }
}

/// The bytes before the first zero byte.
pub open spec fn before_nul(s: Seq<u8>) -> Seq<u8> {
    s.subrange(0, zero_from(s, 0))
}

proof fn lemma_zero_from(s: Seq<u8>, i: int)
    requires
        0 <= i <= s.len(),
    ensures
        i <= zero_from(s, i) <= s.len(),
    decreases s.len() - i,
{
    if i < s.len() && s[i] != 0 {
        lemma_zero_from(s, i + 1);
    }
}

/// The ciphertext inside an encrypted name: base64 of the whitespace-free
/// text, when it decodes to a positive multiple of 16 bytes.
pub open spec fn name_ciphertext(encoded: Seq<char>) -> Option<Seq<u8>> {
    match base64_std_decode(encode_utf8(strip_ws(encoded))) {
        Some(d) => if d.len() >= 16 && d.len() % 16 == 0 {
            Some(d)
        } else {
            None
        },
        None => None,
    }
}

/// Whether an encrypted name holds a ciphertext (see [`name_ciphertext`]).
pub fn name_has_ciphertext(encoded: &str) -> (r: bool)
    ensures
        r == name_ciphertext(encoded@) is Some,
{
    let cleaned = remove_whitespace(encoded);
    let bytes = cleaned.as_str().as_bytes();
    match base64_decode_standard(bytes) {
        Some(d) => d.len() >= 16 && d.len() % 16 == 0,
        None => false,
    }
}

/// Decryption of a Steam symmetric (depot) encrypted name.
pub open spec fn symmetric_name(encoded: Seq<char>, key: Seq<u8>) -> Result<Seq<char>, CryptoError> {
    match base64_std_decode(encode_utf8(strip_ws(encoded))) {
        None => Err(CryptoError::Base64),
        Some(d) => if d.len() < 16 || d.len() % 16 != 0 {
            Err(CryptoError::InvalidLength(d.len() as usize))
        } else {
            match symmetric_decrypt(key, d) {
                Some(p) => Ok(lossy_text(before_nul(p))),
                None => Err(CryptoError::Decrypt),
            }
        },
    }
}

/// Removes whitespace from a string.
fn remove_whitespace(s: &str) -> (r: String)
    ensures
        r@ == strip_ws(s@),
{
    let cs = str_chars(s);
    let mut out: Vec<char> = Vec::new();
    let mut i: usize = 0;
    assert(cs@.subrange(0, 0) =~= seq![]);
    while i < cs.len()
        invariant
            i <= cs.len(),
            out@ == strip_ws(cs@.subrange(0, i as int)),
        decreases cs.len() - i,
    {
        assert(cs@.subrange(0, i + 1).drop_last() =~= cs@.subrange(0, i as int));
        if !char_is_ws(cs[i]) {
            out.push(cs[i]);
        }
        i = i + 1;
    }
    assert(cs@.subrange(0, cs.len() as int) =~= cs@);
    string_from_chars(out.as_slice())
}

/// Decrypts a Steam symmetric (depot) encrypted name: base64 of
/// `[ECB-encrypted IV | CBC-encrypted data]`, UTF-8 with trailing NULs.
/// Steam wraps the base64 payload with newlines; whitespace is stripped first.
pub fn decrypt_symmetric_name(encoded: &str, key: &[u8]) -> (r: Result<String, CryptoError>)
    requires
        key@.len() == 32 || name_ciphertext(encoded@) is None,
    ensures
        match symmetric_name(encoded@, key@) {
            Ok(s) => r matches Ok(v) && v@ == s,
            Err(e) => r == Err::<String, CryptoError>(e),
        },
{
    let cleaned = remove_whitespace(encoded);
    let bytes = cleaned.as_str().as_bytes();
    let data = match base64_decode_standard(bytes) {
        Some(d) => d,
        None => return Err(CryptoError::Base64),
    };
    if data.len() < 16 || data.len() % 16 != 0 {
        return Err(CryptoError::InvalidLength(data.len()));
    }
    let iv = aes256_ecb_decrypt_block(key, &first_block(data.as_slice()));
    let body = tail_from(data.as_slice(), 16);
    let plain = aes256_cbc_decrypt(key, &iv, body.as_slice())?;
    let mut end: usize = 0;
    proof {
        lemma_zero_from(plain@, 0);
    }
    while end < plain.len() && plain[end] != 0
        invariant
            end <= plain.len(),
            zero_from(plain@, 0) == zero_from(plain@, end as int),
        decreases plain.len() - end,
    {
        end = end + 1;
    }
    let mut trimmed: Vec<u8> = Vec::new();
    let mut i: usize = 0;
    while i < end
        invariant
            i <= end <= plain.len(),
            trimmed@ == plain@.subrange(0, i as int),
        decreases end - i,
    {
        trimmed.push(plain[i]);
        i = i + 1;
        assert(trimmed@ =~= plain@.subrange(0, i as int));
    }
    Ok(utf8_lossy_string(trimmed.as_slice()))
}

// ------------------------------------------------------------------
// RSA
// ------------------------------------------------------------------

#[verifier::external_type_specification]
#[verifier::external_body]
pub struct ExRsaPublicKey(rsa::RsaPublicKey);

/// Whether `rsa::RsaPublicKey::new` accepts a big-endian modulus and
/// exponent.
pub uninterp spec fn rsa_key_accepted(modulus: Seq<u8>, exponent: Seq<u8>) -> bool;

/// The length in bytes of a big-endian number, leading zero bytes left out:
/// the size of an RSA modulus and of every ciphertext under it.
pub open spec fn significant_len(n: Seq<u8>) -> nat
    decreases n.len(),
{
    if n.len() > 0 && n[0] == 0 {
        significant_len(n.drop_first())
    } else {
        n.len()
    }
}

/// The number a big-endian byte string spells.
pub open spec fn be_value(b: Seq<u8>) -> nat
    decreases b.len(),
{
    if b.len() == 0 {
        0
    } else {
        be_value(b.drop_last()) * 256 + (b.last() as nat)
    }
}

/// The PKCS#1 v1.5 encryption block of `m` with padding `ps`:
/// `0x00 0x02 ps 0x00 m`.
pub open spec fn pkcs1_v15_block(ps: Seq<u8>, m: Seq<u8>) -> Seq<u8> {
    seq![0u8, 2u8] + ps + seq![0u8] + m
}

/// `c` is a PKCS#1 v1.5 encryption of `m` under the modulus `n` and the
/// exponent `e` (both big-endian): `c` is as long as the modulus, `k`
/// bytes, and spells `block^e mod n` for a block padded with `k - |m| - 3`
/// non-zero bytes.
pub open spec fn pkcs1_v15_encrypts(n: Seq<u8>, e: Seq<u8>, m: Seq<u8>, c: Seq<u8>) -> bool {
    &&& c.len() == significant_len(n)
    &&& exists|ps: Seq<u8>|
        #![trigger pkcs1_v15_block(ps, m)]
        ps.len() + m.len() + 3 == significant_len(n) && (forall|i: int|
            0 <= i < ps.len() ==> ps[i] != 0) && be_value(c) == pow(
            be_value(pkcs1_v15_block(ps, m)) as int,
            be_value(e),
        ) % (be_value(n) as int)
}

/// An accepted RSA public key, with the modulus and exponent bytes it was
/// built from.
pub struct RsaKey {
    key: rsa::RsaPublicKey,
    modulus: Vec<u8>,
    exponent: Vec<u8>,
}

impl RsaKey {
    /// The big-endian modulus bytes the key was built from.
    pub closed spec fn modulus(&self) -> Seq<u8> {
        self.modulus@
    }

    /// The big-endian exponent bytes the key was built from.
    pub closed spec fn exponent(&self) -> Seq<u8> {
        self.exponent@
    }
}

/// Builds an RSA public key from big-endian modulus and exponent bytes
/// (`rsa::BigUint::from_bytes_be` and `rsa::RsaPublicKey::new`); whether it
/// is accepted is named by [`rsa_key_accepted`].
#[verifier::external_body]
fn rsa_public_key(modulus: &[u8], exponent: &[u8]) -> (r: Option<RsaKey>)
    ensures
        r is Some <==> rsa_key_accepted(modulus@, exponent@),
        r matches Some(k) ==> k.modulus() == modulus@ && k.exponent() == exponent@,
{
    let n = rsa::BigUint::from_bytes_be(modulus);
    let e = rsa::BigUint::from_bytes_be(exponent);
    rsa::RsaPublicKey::new(n, e).ok().map(|key| RsaKey { key, modulus: modulus.to_vec(), exponent: exponent.to_vec() })
}

/// RSA PKCS#1 v1.5 encryption (`RsaPublicKey::encrypt` with
/// `Pkcs1v15Encrypt` and the thread RNG). On an accepted key it fails only
/// when the message is longer than the modulus size less 11 bytes; the
/// ciphertext is the message's encryption block raised to the exponent
/// modulo the modulus, written in as many bytes as the modulus has. Which
/// non-zero padding bytes the RNG drew is left unsaid.
#[verifier::external_body]
fn rsa_pkcs1_encrypt(key: &RsaKey, message: &[u8]) -> (r: Option<Vec<u8>>)
    requires
        rsa_key_accepted(key.modulus(), key.exponent()),
    ensures
        r is Some <==> message@.len() + 11 <= significant_len(key.modulus()),
        r matches Some(c) ==> c@.len() == significant_len(key.modulus()),
        r matches Some(c) ==> pkcs1_v15_encrypts(key.modulus(), key.exponent(), message@, c@),
{
    let mut rng = rand::thread_rng();
    key.key.encrypt(&mut rng, rsa::Pkcs1v15Encrypt, message).ok()
}

/// RSA PKCS#1 v1.5 encryption of the password for credentials auth; the
/// result is the base64 of a PKCS#1 v1.5 encryption of the password's
/// bytes under the key (only the padding is random).
pub fn rsa_encrypt_password(modulus_hex: &str, exponent_hex: &str, password: &str) -> (r: Result<
    String,
    CryptoError,
>)
    ensures
        match (hex_decode_spec(modulus_hex.spec_bytes()), hex_decode_spec(exponent_hex.spec_bytes())) {
            (Some(n), Some(e)) => if !rsa_key_accepted(n, e) {
                r == Err::<String, CryptoError>(CryptoError::RsaKey)
            } else if password.spec_bytes().len() + 11 <= significant_len(n) {
                r matches Ok(s) && exists|c: Seq<u8>|
                    #[trigger] pkcs1_v15_encrypts(n, e, password.spec_bytes(), c) && s@
                        == base64_std_encode(c)
            } else {
                r == Err::<String, CryptoError>(CryptoError::RsaEncrypt)
            },
            _ => r == Err::<String, CryptoError>(CryptoError::Hex),
        },
{
    let n = match hex_decode(modulus_hex.as_bytes()) {
        Some(v) => v,
        None => return Err(CryptoError::Hex),
    };
    let e = match hex_decode(exponent_hex.as_bytes()) {
        Some(v) => v,
        None => return Err(CryptoError::Hex),
    };
    let key = match rsa_public_key(n.as_slice(), e.as_slice()) {
        Some(k) => k,
        None => return Err(CryptoError::RsaKey),
    };
    match rsa_pkcs1_encrypt(&key, password.as_bytes()) {
        Some(c) => Ok(base64_encode_standard(c.as_slice())),
        None => Err(CryptoError::RsaEncrypt),
    }
}

// ------------------------------------------------------------------
// Adler-32
// ------------------------------------------------------------------

/// The running `(a, b)` sums of Adler-32 with a zero seed.
pub open spec fn adler_sums(data: Seq<u8>) -> (int, int)
    decreases data.len(),
{
    if data.len() == 0 {
        (0, 0)
    } else {
        let (a, b) = adler_sums(data.drop_last());
        let a2 = (a + data.last()) % 65521;
        (a2, (b + a2) % 65521)
    }
}

/// Adler-32 with a zero seed: `b * 65536 + a`.
pub open spec fn adler32_spec(data: Seq<u8>) -> u32 {
    (adler_sums(data).1 * 65536 + adler_sums(data).0) as u32
}

proof fn lemma_adler_sums_bounds(data: Seq<u8>)
    ensures
        0 <= adler_sums(data).0 < 65521,
        0 <= adler_sums(data).1 < 65521,
    decreases data.len(),
{
    if data.len() > 0 {
        lemma_adler_sums_bounds(data.drop_last());
    }
}

/// Adler-32 with zero seed (as used by depot chunk checksums).
pub fn adler32(data: &[u8]) -> (r: u32)
    ensures
        r == adler32_spec(data@),
{
    let mut a: u32 = 0;
    let mut b: u32 = 0;
    let mut i: usize = 0;
    while i < data.len()
        invariant
            i <= data.len(),
            a < 65521,
            b < 65521,
            (a as int, b as int) == adler_sums(data@.subrange(0, i as int)),
        decreases data.len() - i,
    {
        assert(data@.subrange(0, i + 1).drop_last() =~= data@.subrange(0, i as int));
        a = (a + data[i] as u32) % 65521;
        b = (b + a) % 65521;
        i = i + 1;
    }
    assert(data@.subrange(0, data.len() as int) =~= data@);
    b * 65536 + a
}

} // verus!
